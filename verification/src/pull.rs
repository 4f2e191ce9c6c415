//! "Pull Latest Branches": for each repository of the pull list, `git
//! fetch`, check that the branch exists on origin, `git checkout` and `git
//! pull`, logging every step and carrying on past failures.
//!
//! The decisions are a state machine: `start_pull` opens a session, and
//! `pull_step` takes the outcome of the last requested operation (a path
//! check or a git run) and says what to log and what to do next. Whoever
//! drives the session performs each request and feeds its outcome back,
//! until a `Done` action ends it.
use vstd::prelude::*;
use crate::finder::{decimal, i32_to_string, joined};
use crate::repos::repo_table;
use crate::text::str_eq;

verus! {

/// The branches that may be pulled.
pub open spec fn branch_list() -> Seq<Seq<char>> {
    seq!["release/develop"@, "release/uat"@, "release/pre-prod"@, "production-release"@]
}

/// The repositories pulled, in order (`utec-microservices` is left out on
/// purpose).
pub open spec fn pull_list() -> Seq<Seq<char>> {
    seq![
        "service-requests-backend"@,
        "polaris-backend"@,
        "service-sr-tracker"@,
        "bpd-qrc-backend"@,
        "service-user-onboarding"@,
        "backend-lambdas"@,
    ]
}

pub fn branches() -> (r: Vec<&'static str>)
    ensures
        r@.len() == branch_list().len(),
        forall|i: int| 0 <= i < r@.len() ==> (#[trigger] r@[i])@ == branch_list()[i],
{
    let r = vec!["release/develop", "release/uat", "release/pre-prod", "production-release"];
    r
}

fn pull_repo(i: usize) -> (r: &'static str)
    requires
        i < pull_list().len(),
    ensures
        r@ == pull_list()[i as int],
{
    if i == 0 {
        "service-requests-backend"
    } else if i == 1 {
        "polaris-backend"
    } else if i == 2 {
        "service-sr-tracker"
    } else if i == 3 {
        "bpd-qrc-backend"
    } else if i == 4 {
        "service-user-onboarding"
    } else {
        "backend-lambdas"
    }
}

/// The outcome of a pull, reported when the session ends.
#[derive(Debug, Clone)]
pub struct PullDone {
    pub ok: bool,
    pub error: Option<String>,
}

/// Where a session stands: waiting for the root check, for the check of the
/// current repository's folder, for one of its four git runs, or over.
#[derive(Debug, Clone, Copy, PartialEq, Eq, Structural)]
pub enum PullStage {
    Root,
    Repo,
    Fetch,
    Verify,
    Checkout,
    Pull,
    Over,
}

/// A pull in progress.
#[derive(Debug, Clone)]
pub struct PullSession {
    pub branch: String,
    pub repo_root: String,
    /// Index of the current repository in the pull list.
    pub repo: usize,
    pub stage: PullStage,
}

/// What the driver reports back: whether the repo root exists, whether the
/// current repository's folder exists (with the path as displayed), or how
/// the requested git run ended (its exit code, or why it could not run).
pub enum PullEvent {
    RootChecked(bool),
    RepoChecked(bool, String),
    Finished(Result<i32, String>),
}

/// What the driver is asked to do: log a line, check that the repo root
/// exists, check that a repository folder exists under it, run `git` with
/// the given arguments in a repository folder (forwarding its output to the
/// log when the flag says so), or end the session with a result.
pub enum PullAction {
    Log(String),
    CheckRoot(String),
    CheckRepo(String),
    Git(String, Vec<String>, bool),
    Done(PullDone),
}

pub struct SessionView {
    pub branch: Seq<char>,
    pub repo_root: Seq<char>,
    pub repo: nat,
    pub stage: PullStage,
}

pub enum EventView {
    RootChecked(bool),
    RepoChecked(bool, Seq<char>),
    Finished(Result<i32, Seq<char>>),
}

pub enum ActionView {
    Log(Seq<char>),
    CheckRoot(Seq<char>),
    CheckRepo(Seq<char>),
    Git(Seq<char>, Seq<Seq<char>>, bool),
    Done(bool, Option<Seq<char>>),
}

impl View for PullSession {
    type V = SessionView;

    open spec fn view(&self) -> SessionView {
        SessionView {
            branch: self.branch@,
            repo_root: self.repo_root@,
            repo: self.repo as nat,
            stage: self.stage,
        }
    }
}

impl View for PullEvent {
    type V = EventView;

    open spec fn view(&self) -> EventView {
        match self {
            PullEvent::RootChecked(b) => EventView::RootChecked(*b),
            PullEvent::RepoChecked(b, s) => EventView::RepoChecked(*b, s@),
            PullEvent::Finished(r) => EventView::Finished(
                match r {
                    Ok(c) => Ok(*c),
                    Err(e) => Err(e@),
                },
            ),
        }
    }
}

impl View for PullAction {
    type V = ActionView;

    open spec fn view(&self) -> ActionView {
        match self {
            PullAction::Log(s) => ActionView::Log(s@),
            PullAction::CheckRoot(s) => ActionView::CheckRoot(s@),
            PullAction::CheckRepo(s) => ActionView::CheckRepo(s@),
            PullAction::Git(d, a, f) => ActionView::Git(d@, a.deep_view(), *f),
            PullAction::Done(d) => ActionView::Done(d.ok, d.error.deep_view()),
        }
    }
}

pub open spec fn actions_view(v: Seq<PullAction>) -> Seq<ActionView> {
    v.map_values(|a: PullAction| a@)
}

/// How `{:?}` shows a string: quoted, with escapes.
pub uninterp spec fn debug_text(s: Seq<char>) -> Seq<char>;

/// `format!("{:?}", s)` for a string.
#[verifier::external_body]
pub(crate) fn debug_string(s: &str) -> (r: String)
    ensures
        r@ == debug_text(s@),
{
    format!("{:?}", s)
}

/// How `{:?}` shows the outcome of a git run.
pub open spec fn outcome_text(r: Result<i32, Seq<char>>) -> Seq<char> {
    match r {
        Ok(c) => "Ok("@ + decimal(c as int) + ")"@,
        Err(e) => "Err("@ + debug_text(e) + ")"@,
    }
}

fn outcome_string(r: &Result<i32, String>) -> (s: String)
    ensures
        s@ == outcome_text(
            match r {
                Ok(c) => Ok(*c),
                Err(e) => Err(e@),
            },
        ),
{
    match r {
        Ok(c) => {
            let mut s = String::from_str("Ok(");
            let n = i32_to_string(*c);
            s.append(n.as_str());
            s.append(")");
            s
        },
        Err(e) => {
            let mut s = String::from_str("Err(");
            let d = debug_string(e.as_str());
            s.append(d.as_str());
            s.append(")");
            s
        },
    }
}

// ---------------------------------------------------------------------------
// Transitions
// ---------------------------------------------------------------------------

pub open spec fn log(s: Seq<char>) -> ActionView {
    ActionView::Log(s)
}

pub open spec fn over(s: SessionView) -> SessionView {
    SessionView { stage: PullStage::Over, ..s }
}

/// Moving on to repository `i` of the pull list, or finishing after the last.
pub open spec fn next_repo(s: SessionView, i: nat) -> (SessionView, Seq<ActionView>) {
    if i < pull_list().len() {
        (
            SessionView { repo: i, stage: PullStage::Repo, ..s },
            seq![
                log("********* Pulling "@ + pull_list()[i as int] + " ("@ + s.branch + ") ******"@),
                ActionView::CheckRepo(pull_list()[i as int]),
            ],
        )
    } else {
        (
            SessionView { repo: i, stage: PullStage::Over, ..s },
            seq![log("==> All done."@), ActionView::Done(true, None)],
        )
    }
}

/// Giving up on the current repository after `lines` were logged.
pub open spec fn skip_repo(s: SessionView, lines: Seq<ActionView>) -> (SessionView, Seq<ActionView>) {
    let (t, next) = next_repo(s, s.repo + 1);
    (t, lines + next)
}

pub open spec fn git(s: SessionView, args: Seq<Seq<char>>, log_output: bool, stage: PullStage) -> (
    SessionView,
    Seq<ActionView>,
) {
    (
        SessionView { stage: stage, ..s },
        seq![ActionView::Git(pull_list()[s.repo as int], args, log_output)],
    )
}

/// The session that `start_pull` opens.
pub open spec fn pull_start(repo_root: Seq<char>, branch: Seq<char>) -> (SessionView, Seq<ActionView>) {
    let s = SessionView { branch: branch, repo_root: repo_root, repo: 0, stage: PullStage::Root };
    if !branch_list().contains(branch) {
        (
            over(s),
            seq![
                log(
                    "!! ERROR: Invalid branch '"@ + branch + "'. Allowed: "@ + joined(
                        branch_list(),
                        ", "@,
                    ),
                ),
                ActionView::Done(false, Some("Invalid branch: "@ + branch)),
            ],
        )
    } else {
        (s, seq![ActionView::CheckRoot(repo_root)])
    }
}

/// Whether `e` answers the request of stage `stage`.
pub open spec fn event_fits(stage: PullStage, e: EventView) -> bool {
    match stage {
        PullStage::Root => e is RootChecked,
        PullStage::Repo => e is RepoChecked,
        PullStage::Fetch | PullStage::Verify | PullStage::Checkout | PullStage::Pull => e is Finished,
        PullStage::Over => false,
    }
}

/// The transition of a session on the outcome of its last request. Events
/// that do not answer the pending request, and anything after the end,
/// change nothing.
pub open spec fn pull_transition(s: SessionView, e: EventView) -> (SessionView, Seq<ActionView>) {
    if !event_fits(s.stage, e) || (s.stage != PullStage::Root && s.repo >= pull_list().len()) {
        (s, Seq::empty())
    } else {
        let repo = pull_list()[s.repo as int];
        match e {
            EventView::RootChecked(exists) => if exists {
                let (t, a) = next_repo(s, 0);
                (
                    t,
                    seq![
                        log("==> Using branch: "@ + s.branch),
                        log("==> Working in: "@ + s.repo_root),
                        log(Seq::empty()),
                    ] + a,
                )
            } else {
                let msg = "Repo root does not exist: "@ + s.repo_root;
                (over(s), seq![log("!! ERROR: "@ + msg), ActionView::Done(false, Some(msg))])
            },
            EventView::RepoChecked(exists, shown) => if exists {
                git(s, seq!["fetch"@, "--all"@], true, PullStage::Fetch)
            } else {
                skip_repo(
                    s,
                    seq![
                        log("!! Skipping "@ + repo + " (directory not found at "@ + shown + ")"@),
                        log(Seq::empty()),
                    ],
                )
            },
            EventView::Finished(r) => {
                let ok = r == Ok::<i32, Seq<char>>(0);
                match s.stage {
                    PullStage::Fetch => if ok {
                        git(
                            s,
                            seq![
                                "show-ref"@,
                                "--verify"@,
                                "--quiet"@,
                                "refs/remotes/origin/"@ + s.branch,
                            ],
                            false,
                            PullStage::Verify,
                        )
                    } else {
                        skip_repo(
                            s,
                            seq![
                                log("!! git fetch failed for "@ + repo + " ("@ + outcome_text(r) + ")"@),
                                log(Seq::empty()),
                            ],
                        )
                    },
                    PullStage::Verify => if ok {
                        git(s, seq!["checkout"@, s.branch], true, PullStage::Checkout)
                    } else {
                        skip_repo(
                            s,
                            seq![
                                log(
                                    "!! Branch "@ + s.branch + " not found on origin for "@ + repo
                                        + ", skipping."@,
                                ),
                                log(Seq::empty()),
                            ],
                        )
                    },
                    PullStage::Checkout => if ok {
                        git(s, seq!["pull"@, "origin"@, s.branch], true, PullStage::Pull)
                    } else {
                        skip_repo(
                            s,
                            seq![
                                log(
                                    "!! git checkout failed for "@ + repo + " ("@ + outcome_text(r)
                                        + ")"@,
                                ),
                                log(Seq::empty()),
                            ],
                        )
                    },
                    _ => {
                        let failed = if ok {
                            Seq::<ActionView>::empty()
                        } else {
                            seq![log("!! git pull failed for "@ + repo + " ("@ + outcome_text(r) + ")"@)]
                        };
                        skip_repo(
                            s,
                            failed + seq![
                                log("*********** "@ + repo + " pull is done **************"@),
                                log(Seq::empty()),
                            ],
                        )
                    },
                }
            },
        }
    }
}

// ---------------------------------------------------------------------------
// Executable transitions
// ---------------------------------------------------------------------------

fn text(parts: &[&str]) -> (r: String)
    ensures
        r@ == concat_views(parts@),
{
    let mut r = String::new();
    let mut i: usize = 0;
    while i < parts.len()
        invariant
            i <= parts@.len(),
            r@ == concat_views(parts@.take(i as int)),
        decreases parts.len() - i,
    {
        proof {
            assert(parts@.take(i + 1).drop_last() =~= parts@.take(i as int));
        }
        r.append(parts[i]);
        i += 1;
    }
    assert(parts@.take(parts@.len() as int) =~= parts@);
    r
}

pub open spec fn concat_views(parts: Seq<&str>) -> Seq<char>
    decreases parts.len(),
{
    if parts.len() == 0 {
        Seq::empty()
    } else {
        concat_views(parts.drop_last()) + parts.last()@
    }
}

fn log_action(parts: &[&str]) -> (r: PullAction)
    ensures
        r@ == ActionView::Log(concat_views(parts@)),
{
    PullAction::Log(text(parts))
}

fn push_all(v: &mut Vec<PullAction>, w: Vec<PullAction>)
    ensures
        actions_view(final(v)@) == actions_view(old(v)@) + actions_view(w@),
{
    let mut w = w;
    let ghost wv = actions_view(w@);
    let ghost start = actions_view(v@);
    v.append(&mut w);
    assert(actions_view(v@) =~= start + wv);
}

fn next_repo_exec(s: &PullSession, i: usize) -> (r: (PullSession, Vec<PullAction>))
    requires
        i <= pull_list().len(),
    ensures
        (r.0@, actions_view(r.1@)) == next_repo(s@, i as nat),
{
    let mut actions: Vec<PullAction> = Vec::new();
    if i < 6 {
        let repo = pull_repo(i);
        actions.push(log_action(&["********* Pulling ", repo, " (", s.branch.as_str(), ") ******"]));
        actions.push(PullAction::CheckRepo(String::from_str(repo)));
        let t = PullSession {
            branch: s.branch.clone(),
            repo_root: s.repo_root.clone(),
            repo: i,
            stage: PullStage::Repo,
        };
        proof {
            reveal_with_fuel(concat_views, 6);
        }
        assert(actions_view(actions@) =~= next_repo(s@, i as nat).1);
        (t, actions)
    } else {
        actions.push(PullAction::Log(String::from_str("==> All done.")));
        actions.push(PullAction::Done(PullDone { ok: true, error: None }));
        let t = PullSession {
            branch: s.branch.clone(),
            repo_root: s.repo_root.clone(),
            repo: i,
            stage: PullStage::Over,
        };
        assert(actions_view(actions@) =~= next_repo(s@, i as nat).1);
        (t, actions)
    }
}

fn skip_repo_exec(s: &PullSession, lines: Vec<PullAction>) -> (r: (PullSession, Vec<PullAction>))
    requires
        s.repo < pull_list().len(),
    ensures
        (r.0@, actions_view(r.1@)) == skip_repo(s@, actions_view(lines@)),
{
    let (t, next) = next_repo_exec(s, s.repo + 1);
    let mut lines = lines;
    push_all(&mut lines, next);
    (t, lines)
}

fn git_exec(s: &PullSession, args: Vec<String>, log_output: bool, stage: PullStage) -> (r: (
    PullSession,
    Vec<PullAction>,
))
    requires
        s.repo < pull_list().len(),
    ensures
        (r.0@, actions_view(r.1@)) == git(s@, args.deep_view(), log_output, stage),
{
    let repo = pull_repo(s.repo);
    let mut actions: Vec<PullAction> = Vec::new();
    actions.push(PullAction::Git(String::from_str(repo), args, log_output));
    let t = PullSession {
        branch: s.branch.clone(),
        repo_root: s.repo_root.clone(),
        repo: s.repo,
        stage: stage,
    };
    assert(actions_view(actions@) =~= git(s@, args.deep_view(), log_output, stage).1);
    (t, actions)
}

/// Opens a pull session for `branch` under `repo_root`: the branch must be
/// one of `branches()`, else the session ends at once with an error.
pub fn start_pull(repo_root: &str, branch: &str) -> (r: (PullSession, Vec<PullAction>))
    ensures
        (r.0@, actions_view(r.1@)) == pull_start(repo_root@, branch@),
{
    let list = branches();
    let mut known = false;
    let mut allowed = String::new();
    let mut i: usize = 0;
    while i < list.len()
        invariant
            i <= list@.len() == branch_list().len(),
            forall|k: int| 0 <= k < list@.len() ==> (#[trigger] list@[k])@ == branch_list()[k],
            known == branch_list().take(i as int).contains(branch@),
            allowed@ == joined(branch_list().take(i as int), ", "@),
        decreases list.len() - i,
    {
        proof {
            assert(branch_list().take(i + 1) =~= branch_list().take(i as int).push(
                branch_list()[i as int],
            ));
            assert(branch_list().take(i + 1).drop_last() =~= branch_list().take(i as int));
        }
        let hit = str_eq(list[i], branch);
        proof {
            let prev = branch_list().take(i as int);
            let next = branch_list().take(i + 1);
            if hit {
                assert(next[i as int] == branch@);
            }
            if prev.contains(branch@) {
                let k = choose|k: int| 0 <= k < prev.len() && prev[k] == branch@;
                assert(next[k] == branch@);
            }
            if next.contains(branch@) && !hit {
                let k = choose|k: int| 0 <= k < next.len() && next[k] == branch@;
                assert(k < i);
                assert(prev[k] == branch@);
            }
        }
        if hit {
            known = true;
        }
        if i > 0 {
            allowed.append(", ");
        }
        allowed.append(list[i]);
        i += 1;
    }
    proof {
        assert(branch_list().take(list@.len() as int) =~= branch_list());
    }
    let s = PullSession {
        branch: String::from_str(branch),
        repo_root: String::from_str(repo_root),
        repo: 0,
        stage: PullStage::Root,
    };
    let mut actions: Vec<PullAction> = Vec::new();
    if !known {
        actions.push(log_action(&["!! ERROR: Invalid branch '", branch, "'. Allowed: ", allowed.as_str()]));
        let mut msg = String::from_str("Invalid branch: ");
        msg.append(branch);
        actions.push(PullAction::Done(PullDone { ok: false, error: Some(msg) }));
        proof {
            reveal_with_fuel(concat_views, 5);
        }
        assert(actions_view(actions@) =~= pull_start(repo_root@, branch@).1);
        let t = PullSession { stage: PullStage::Over, ..s };
        return (t, actions);
    }
    actions.push(PullAction::CheckRoot(String::from_str(repo_root)));
    assert(actions_view(actions@) =~= pull_start(repo_root@, branch@).1);
    (s, actions)
}

fn on_root_checked(s: &PullSession, exists: bool) -> (r: (PullSession, Vec<PullAction>))
    requires
        s.stage == PullStage::Root,
    ensures
        (r.0@, actions_view(r.1@)) == pull_transition(s@, EventView::RootChecked(exists)),
{
    let mut actions: Vec<PullAction> = Vec::new();
    if exists {
        actions.push(log_action(&["==> Using branch: ", s.branch.as_str()]));
        actions.push(log_action(&["==> Working in: ", s.repo_root.as_str()]));
        actions.push(PullAction::Log(String::new()));
        proof {
            reveal_with_fuel(concat_views, 3);
        }
        let (t, next) = next_repo_exec(s, 0);
        push_all(&mut actions, next);
        assert(actions_view(actions@) =~= pull_transition(s@, EventView::RootChecked(exists)).1);
        (t, actions)
    } else {
        let mut msg = String::from_str("Repo root does not exist: ");
        msg.append(s.repo_root.as_str());
        let mut line = String::from_str("!! ERROR: ");
        line.append(msg.as_str());
        actions.push(PullAction::Log(line));
        actions.push(PullAction::Done(PullDone { ok: false, error: Some(msg) }));
        let t = PullSession {
            branch: s.branch.clone(),
            repo_root: s.repo_root.clone(),
            repo: s.repo,
            stage: PullStage::Over,
        };
        assert(actions_view(actions@) =~= pull_transition(s@, EventView::RootChecked(exists)).1);
        (t, actions)
    }
}

fn on_repo_checked(s: &PullSession, exists: bool, shown: &str) -> (r: (PullSession, Vec<PullAction>))
    requires
        s.stage == PullStage::Repo,
        s.repo < pull_list().len(),
    ensures
        (r.0@, actions_view(r.1@)) == pull_transition(s@, EventView::RepoChecked(exists, shown@)),
{
    if exists {
        let mut args: Vec<String> = Vec::new();
        args.push(String::from_str("fetch"));
        args.push(String::from_str("--all"));
        assert(args.deep_view() =~= seq!["fetch"@, "--all"@]);
        git_exec(s, args, true, PullStage::Fetch)
    } else {
        let repo = pull_repo(s.repo);
        let mut lines: Vec<PullAction> = Vec::new();
        lines.push(log_action(&["!! Skipping ", repo, " (directory not found at ", shown, ")"]));
        lines.push(PullAction::Log(String::new()));
        proof {
            reveal_with_fuel(concat_views, 6);
        }
        assert(actions_view(lines@) =~= seq![
            log("!! Skipping "@ + repo@ + " (directory not found at "@ + shown@ + ")"@),
            log(Seq::empty()),
        ]);
        skip_repo_exec(s, lines)
    }
}

fn on_finished(s: &PullSession, r: &Result<i32, String>) -> (out: (PullSession, Vec<PullAction>))
    requires
        s.stage == PullStage::Fetch || s.stage == PullStage::Verify || s.stage == PullStage::Checkout
            || s.stage == PullStage::Pull,
        s.repo < pull_list().len(),
    ensures
        (out.0@, actions_view(out.1@)) == pull_transition(
            s@,
            EventView::Finished(
                match r {
                    Ok(c) => Ok(*c),
                    Err(e) => Err(e@),
                },
            ),
        ),
{
    let ok = match r {
        Ok(c) => *c == 0,
        Err(_) => false,
    };
    let repo = pull_repo(s.repo);
    proof {
        reveal_with_fuel(concat_views, 6);
    }
    match s.stage {
        PullStage::Fetch => {
            if ok {
                let mut refname = String::from_str("refs/remotes/origin/");
                refname.append(s.branch.as_str());
                let mut args: Vec<String> = Vec::new();
                args.push(String::from_str("show-ref"));
                args.push(String::from_str("--verify"));
                args.push(String::from_str("--quiet"));
                args.push(refname);
                assert(args.deep_view() =~= seq![
                    "show-ref"@,
                    "--verify"@,
                    "--quiet"@,
                    "refs/remotes/origin/"@ + s.branch@,
                ]);
                git_exec(s, args, false, PullStage::Verify)
            } else {
                let o = outcome_string(r);
                let mut lines: Vec<PullAction> = Vec::new();
                lines.push(log_action(&["!! git fetch failed for ", repo, " (", o.as_str(), ")"]));
                lines.push(PullAction::Log(String::new()));
                skip_repo_exec(s, lines)
            }
        },
        PullStage::Verify => {
            if ok {
                let mut args: Vec<String> = Vec::new();
                args.push(String::from_str("checkout"));
                args.push(s.branch.clone());
                assert(args.deep_view() =~= seq!["checkout"@, s.branch@]);
                git_exec(s, args, true, PullStage::Checkout)
            } else {
                let mut lines: Vec<PullAction> = Vec::new();
                lines.push(
                    log_action(
                        &["!! Branch ", s.branch.as_str(), " not found on origin for ", repo, ", skipping."],
                    ),
                );
                lines.push(PullAction::Log(String::new()));
                skip_repo_exec(s, lines)
            }
        },
        PullStage::Checkout => {
            if ok {
                let mut args: Vec<String> = Vec::new();
                args.push(String::from_str("pull"));
                args.push(String::from_str("origin"));
                args.push(s.branch.clone());
                assert(args.deep_view() =~= seq!["pull"@, "origin"@, s.branch@]);
                git_exec(s, args, true, PullStage::Pull)
            } else {
                let o = outcome_string(r);
                let mut lines: Vec<PullAction> = Vec::new();
                lines.push(log_action(&["!! git checkout failed for ", repo, " (", o.as_str(), ")"]));
                lines.push(PullAction::Log(String::new()));
                skip_repo_exec(s, lines)
            }
        },
        _ => {
            let mut lines: Vec<PullAction> = Vec::new();
            if !ok {
                let o = outcome_string(r);
                lines.push(log_action(&["!! git pull failed for ", repo, " (", o.as_str(), ")"]));
            }
            lines.push(log_action(&["*********** ", repo, " pull is done **************"]));
            lines.push(PullAction::Log(String::new()));
            skip_repo_exec(s, lines)
        },
    }
}

/// Advances a session on the outcome of its last request.
pub fn pull_step(s: &PullSession, e: &PullEvent) -> (r: (PullSession, Vec<PullAction>))
    ensures
        (r.0@, actions_view(r.1@)) == pull_transition(s@, e@),
{
    let fits = match e {
        PullEvent::RootChecked(_) => s.stage == PullStage::Root,
        PullEvent::RepoChecked(_, _) => s.stage == PullStage::Repo,
        PullEvent::Finished(_) => s.stage == PullStage::Fetch || s.stage == PullStage::Verify
            || s.stage == PullStage::Checkout || s.stage == PullStage::Pull,
    };
    if !fits || (s.stage != PullStage::Root && s.repo >= 6) {
        let t = PullSession {
            branch: s.branch.clone(),
            repo_root: s.repo_root.clone(),
            repo: s.repo,
            stage: s.stage,
        };
        let none: Vec<PullAction> = Vec::new();
        assert(actions_view(none@) =~= Seq::<ActionView>::empty());
        return (t, none);
    }
    match e {
        PullEvent::RootChecked(exists) => on_root_checked(s, *exists),
        PullEvent::RepoChecked(exists, shown) => on_repo_checked(s, *exists, shown.as_str()),
        PullEvent::Finished(r) => on_finished(s, r),
    }
}

// ---------------------------------------------------------------------------
// Laws
// ---------------------------------------------------------------------------

pub open spec fn stage_rank(stage: PullStage) -> nat {
    match stage {
        PullStage::Repo => 4,
        PullStage::Fetch => 3,
        PullStage::Verify => 2,
        PullStage::Checkout => 1,
        _ => 0,
    }
}

/// An upper bound on the requests a session still makes.
pub open spec fn pull_measure(s: SessionView) -> nat {
    match s.stage {
        PullStage::Over => 0,
        PullStage::Root => 5 * pull_list().len() + 2,
        _ => if s.repo < pull_list().len() {
            (5 * (pull_list().len() - s.repo - 1) + stage_rank(s.stage) + 2) as nat
        } else {
            0
        },
    }
}

/// A well-formed batch of actions: log lines, then exactly one request;
/// the session is over exactly when that request is `Done`.
pub open spec fn well_formed_batch(t: SessionView, a: Seq<ActionView>) -> bool {
    &&& a.len() >= 1
    &&& forall|k: int| 0 <= k < a.len() - 1 ==> (#[trigger] a[k]) is Log
    &&& !(a.last() is Log)
    &&& (t.stage == PullStage::Over <==> a.last() is Done)
}

proof fn lemma_next_repo(s: SessionView, i: nat, lines: Seq<ActionView>)
    requires
        forall|k: int| 0 <= k < lines.len() ==> (#[trigger] lines[k]) is Log,
        i <= pull_list().len(),
    ensures
        well_formed_batch(next_repo(s, i).0, lines + next_repo(s, i).1),
        pull_measure(next_repo(s, i).0) <= 5 * (pull_list().len() - i) + 1,
        next_repo(s, i).1.last() is Done ==> (next_repo(s, i).1.last() == ActionView::Done(true, None)
            && next_repo(s, i).0.repo == pull_list().len()),
{
    let a = lines + next_repo(s, i).1;
    assert forall|k: int| 0 <= k < a.len() - 1 implies (#[trigger] a[k]) is Log by {
        if k < lines.len() {
            assert(a[k] == lines[k]);
        }
    }
}

/// Each step of a session makes progress: on an event that answers its
/// pending request, a session that is not over moves to a state with a
/// smaller measure, so every session ends after finitely many requests.
/// The actions of such a step are log lines followed by one request, and
/// the session is over exactly when that request is `Done`. Any other
/// event, and any event after the end, changes nothing.
pub proof fn lemma_pull_step_progress(s: SessionView, e: EventView)
    ensures
        ({
            let (t, a) = pull_transition(s, e);
            if event_fits(s.stage, e) && (s.stage == PullStage::Root || s.repo
                < pull_list().len()) {
                pull_measure(t) < pull_measure(s) && well_formed_batch(t, a)
            } else {
                t == s && a.len() == 0
            }
        }),
{
    if event_fits(s.stage, e) && (s.stage == PullStage::Root || s.repo < pull_list().len()) {
        match e {
            EventView::RootChecked(exists) => {
                if exists {
                    lemma_next_repo(
                        s,
                        0,
                        seq![
                            log("==> Using branch: "@ + s.branch),
                            log("==> Working in: "@ + s.repo_root),
                            log(Seq::empty()),
                        ],
                    );
                }
            },
            EventView::RepoChecked(exists, shown) => {
                if !exists {
                    let repo = pull_list()[s.repo as int];
                    lemma_next_repo(
                        s,
                        s.repo + 1,
                        seq![
                            log("!! Skipping "@ + repo + " (directory not found at "@ + shown + ")"@),
                            log(Seq::empty()),
                        ],
                    );
                }
            },
            EventView::Finished(r) => {
                let repo = pull_list()[s.repo as int];
                let ok = r == Ok::<i32, Seq<char>>(0);
                if s.stage == PullStage::Fetch && !ok {
                    lemma_next_repo(
                        s,
                        s.repo + 1,
                        seq![
                            log("!! git fetch failed for "@ + repo + " ("@ + outcome_text(r) + ")"@),
                            log(Seq::empty()),
                        ],
                    );
                } else if s.stage == PullStage::Verify && !ok {
                    lemma_next_repo(
                        s,
                        s.repo + 1,
                        seq![
                            log(
                                "!! Branch "@ + s.branch + " not found on origin for "@ + repo
                                    + ", skipping."@,
                            ),
                            log(Seq::empty()),
                        ],
                    );
                } else if s.stage == PullStage::Checkout && !ok {
                    lemma_next_repo(
                        s,
                        s.repo + 1,
                        seq![
                            log("!! git checkout failed for "@ + repo + " ("@ + outcome_text(r) + ")"@),
                            log(Seq::empty()),
                        ],
                    );
                } else if s.stage == PullStage::Pull {
                    let failed = if ok {
                        Seq::<ActionView>::empty()
                    } else {
                        seq![log("!! git pull failed for "@ + repo + " ("@ + outcome_text(r) + ")"@)]
                    };
                    lemma_next_repo(
                        s,
                        s.repo + 1,
                        failed + seq![
                            log("*********** "@ + repo + " pull is done **************"@),
                            log(Seq::empty()),
                        ],
                    );
                }
            },
        }
    }
}

/// A session reports success only after it went through every repository
/// of the pull list; every failure before that point is reported as such.
pub proof fn lemma_success_only_at_end(s: SessionView, e: EventView)
    ensures
        ({
            let (t, a) = pull_transition(s, e);
            (a.len() > 0 && a.last() == ActionView::Done(true, a.last()->Done_1)) ==> (t.repo
                == pull_list().len() && t.stage == PullStage::Over)
        }),
{
    lemma_pull_step_progress(s, e);
    if event_fits(s.stage, e) && (s.stage == PullStage::Root || s.repo < pull_list().len()) {
        match e {
            EventView::RootChecked(exists) => {
                if exists {
                    lemma_next_repo(
                        s,
                        0,
                        seq![
                            log("==> Using branch: "@ + s.branch),
                            log("==> Working in: "@ + s.repo_root),
                            log(Seq::empty()),
                        ],
                    );
                }
            },
            _ => {
                if s.repo < pull_list().len() {
                    lemma_next_repo(s, s.repo + 1, Seq::empty());
                }
            },
        }
    }
}

/// Opening a session yields one well-formed batch; an unknown branch ends it
/// at once with a failure.
pub proof fn lemma_pull_start_shape(repo_root: Seq<char>, branch: Seq<char>)
    ensures
        well_formed_batch(pull_start(repo_root, branch).0, pull_start(repo_root, branch).1),
        !branch_list().contains(branch) ==> (pull_start(repo_root, branch).1.last() is Done
            && !pull_start(repo_root, branch).1.last()->Done_0),
{
}

/// A git run of the fetch, branch check or checkout step that does not end
/// with exit code 0, and any end of the final pull, closes the work on that
/// repository: no further git run is asked for it, and the session moves on
/// to the next repository of the pull list (asking to check its folder) or,
/// after the last one, ends with success.
pub proof fn lemma_repo_closed_after_failure(s: SessionView, r: Result<i32, Seq<char>>)
    requires
        ((s.stage == PullStage::Fetch || s.stage == PullStage::Verify || s.stage
            == PullStage::Checkout) && r != Ok::<i32, Seq<char>>(0)) || s.stage == PullStage::Pull,
        s.repo < pull_list().len(),
    ensures
        ({
            let (t, a) = pull_transition(s, EventView::Finished(r));
            &&& a.len() > 0
            &&& forall|k: int| 0 <= k < a.len() ==> !((#[trigger] a[k]) is Git)
            &&& t.repo == s.repo + 1
            &&& t.branch == s.branch && t.repo_root == s.repo_root
            &&& (s.repo + 1 < pull_list().len() ==> t.stage == PullStage::Repo && a.last()
                == ActionView::CheckRepo(pull_list()[s.repo + 1 as int]))
            &&& (s.repo + 1 == pull_list().len() ==> t.stage == PullStage::Over && a.last()
                == ActionView::Done(true, None))
        }),
{
    let e = EventView::Finished(r);
    lemma_pull_step_progress(s, e);
    let (t, a) = pull_transition(s, e);
    let (t2, next) = next_repo(s, s.repo + 1);
    assert(t == t2);
    assert(a.len() >= next.len());
    assert(a.subrange(a.len() - next.len(), a.len() as int) =~= next);
    assert forall|k: int| 0 <= k < a.len() implies !((#[trigger] a[k]) is Git) by {
        if k >= a.len() - next.len() {
            assert(a[k] == next[k - (a.len() - next.len())]);
        } else {
            assert(a[k] is Log);
        }
    }
}

/// The pull list leaves `utec-microservices` out, and every repository on
/// it is one of the known repositories.
pub proof fn lemma_pull_list_is_known()
    ensures
        !pull_list().contains("utec-microservices"@),
        forall|i: int|
            0 <= i < pull_list().len() ==> exists|j: int|
                0 <= j < repo_table().len() && (#[trigger] repo_table()[j]).folder@
                    == #[trigger] pull_list()[i],
{
    reveal_strlit("utec-microservices");
    reveal_strlit("service-requests-backend");
    reveal_strlit("polaris-backend");
    reveal_strlit("service-sr-tracker");
    reveal_strlit("bpd-qrc-backend");
    reveal_strlit("service-user-onboarding");
    reveal_strlit("backend-lambdas");
    let p = pull_list();
    let m = "utec-microservices"@;
    assert(p[0][0] != m[0]);
    assert(p[1][0] != m[0]);
    assert(p[2][0] != m[0]);
    assert(p[3][0] != m[0]);
    assert(p[4][0] != m[0]);
    assert(p[5][0] != m[0]);
    let t = repo_table();
    assert(t[0].folder@ == p[0]);
    assert(t[2].folder@ == p[1]);
    assert(t[4].folder@ == p[2]);
    assert(t[3].folder@ == p[3]);
    assert(t[5].folder@ == p[4]);
    assert(t[6].folder@ == p[5]);
}

/// Once the branch has been accepted, a step never ends the session with a
/// failure: the only `Done` it can give is the success after the last
/// repository.
proof fn lemma_pull_step_done(s: SessionView, e: EventView)
    requires
        s.stage != PullStage::Root,
    ensures
        ({
            let (t, b) = pull_transition(s, e);
            (b.len() > 0 && b.last() is Done) ==> b.last() == ActionView::Done(true, None)
        }),
{
    lemma_pull_step_progress(s, e);
    if event_fits(s.stage, e) && s.repo < pull_list().len() {
        lemma_next_repo(s, s.repo + 1, Seq::empty());
        let (t, b) = pull_transition(s, e);
        let next = next_repo(s, s.repo + 1).1;
        if b.len() > 0 && b.last() is Done && !(b.last() == next.last()) {
            assert(b.last() is Git);
        }
    }
}

/// The first answer to a root check in `events`, if any.
pub open spec fn first_root(events: Seq<EventView>) -> Option<bool>
    decreases events.len(),
{
    if events.len() == 0 {
        None
    } else {
        match first_root(events.drop_last()) {
            Some(b) => Some(b),
            None => match events.last() {
                EventView::RootChecked(b) => Some(b),
                _ => None,
            },
        }
    }
}

/// A whole session: the state after opening it and feeding it `events`, and
/// every action it asked for on the way, in order.
pub open spec fn pull_run(repo_root: Seq<char>, branch: Seq<char>, events: Seq<EventView>) -> (
    SessionView,
    Seq<ActionView>,
)
    decreases events.len(),
{
    if events.len() == 0 {
        pull_start(repo_root, branch)
    } else {
        let (s, a) = pull_run(repo_root, branch, events.drop_last());
        let (t, b) = pull_transition(s, events.last());
        (t, a + b)
    }
}

proof fn lemma_pull_run_invariant(repo_root: Seq<char>, branch: Seq<char>, events: Seq<EventView>)
    ensures
        ({
            let (s, a) = pull_run(repo_root, branch, events);
            &&& a.len() > 0
            &&& s.branch == branch
            &&& forall|i: int| 0 <= i < a.len() && (#[trigger] a[i]) is Done ==> i == a.len() - 1
            &&& (s.stage == PullStage::Over <==> a.last() is Done)
            &&& (!branch_list().contains(branch) ==> s.stage == PullStage::Over && a.last()
                is Done && !a.last()->Done_0 && a.last()->Done_1 is Some)
            &&& (branch_list().contains(branch) ==> {
                &&& (first_root(events) is None <==> s.stage == PullStage::Root)
                &&& (first_root(events) == Some(false) ==> s.stage == PullStage::Over
                    && !a.last()->Done_0 && a.last()->Done_1 is Some)
                &&& (first_root(events) == Some(true) && s.stage == PullStage::Over
                    ==> a.last() == ActionView::Done(true, None))
            })
        }),
    decreases events.len(),
{
    if events.len() == 0 {
        lemma_pull_start_shape(repo_root, branch);
        let (s, a) = pull_start(repo_root, branch);
        assert forall|i: int| 0 <= i < a.len() && (#[trigger] a[i]) is Done implies i == a.len()
            - 1 by {
            if i < a.len() - 1 {
                assert(a[i] is Log);
            }
        }
    } else {
        let e0 = events.drop_last();
        let e = events.last();
        lemma_pull_run_invariant(repo_root, branch, e0);
        let (s, a) = pull_run(repo_root, branch, e0);
        let (t, b) = pull_transition(s, e);
        lemma_pull_step_progress(s, e);
        if s.stage != PullStage::Root {
            lemma_pull_step_done(s, e);
        }
        let c = a + b;
        assert(pull_run(repo_root, branch, events) == (t, c));
        if b.len() == 0 {
            assert(c =~= a);
        } else {
            assert(s.stage != PullStage::Over);
            assert(c.last() == b.last());
            assert forall|i: int| 0 <= i < c.len() && (#[trigger] c[i]) is Done implies i
                == c.len() - 1 by {
                if i < a.len() {
                    assert(c[i] == a[i]);
                } else if i < c.len() - 1 {
                    assert(c[i] == b[i - a.len()]);
                    assert(b[i - a.len()] is Log);
                }
            }
        }
        if branch_list().contains(branch) && first_root(e0) is None {
            assert(s.stage == PullStage::Root);
            if e is RootChecked {
                assert(first_root(events) == Some(e->RootChecked_0));
            } else {
                assert(first_root(events) is None);
            }
        }
    }
}

/// A whole session, whatever the outcomes reported to it: it asks for at
/// most one `Done`, always as its last action, and it is over exactly when
/// it has. That `Done` reports success exactly when the branch is one of
/// the allowed branches and the repo root was reported to exist, and it
/// carries an error message exactly when it reports a failure.
pub proof fn lemma_pull_run(repo_root: Seq<char>, branch: Seq<char>, events: Seq<EventView>)
    ensures
        ({
            let (s, a) = pull_run(repo_root, branch, events);
            &&& a.len() > 0
            &&& forall|i: int| 0 <= i < a.len() && (#[trigger] a[i]) is Done ==> i == a.len() - 1
            &&& (s.stage == PullStage::Over <==> a.last() is Done)
            &&& (a.last() is Done ==> (a.last()->Done_0 <==> (branch_list().contains(branch)
                && first_root(events) == Some(true))))
            &&& (a.last() is Done ==> (a.last()->Done_1 is None <==> a.last()->Done_0))
        }),
{
    lemma_pull_run_invariant(repo_root, branch, events);
}

} // verus!
