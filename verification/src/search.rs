//! A search as a session: the library decides every step, and whoever
//! drives the session performs the file-system and process work it asks
//! for (checking paths, running `grep`, reading templates) and reports back.
use vstd::prelude::*;
use crate::finder::{
    last_segment, plain_relative, check_query, collect_named_matches, template_file_names, folder_selection, grep_argument_list, grep_arguments,
    grep_outcome, grep_result, present_folders, query_check, search_result, select_folders, FindResult,
    FindResultView,
};
use crate::repos::{list_repos, repo_table, Repo};
use crate::text::copy_strings;

verus! {

/// Where a search stands: waiting for the path checks, for `grep`, for the
/// template contents, or over.
#[derive(Debug, Clone, Copy, PartialEq, Eq, Structural)]
pub enum FindStage {
    Paths,
    Grep,
    Read,
    Over,
}

/// A search in progress.
#[derive(Debug)]
pub struct FindSession {
    pub repo_root: String,
    pub needle: String,
    pub env: String,
    pub folders: Vec<String>,
    pub files: Vec<String>,
    pub stage: FindStage,
}

/// What the driver is asked to do: check that the repo root exists and
/// which of the given folders exist under it; run `grep` in the repo root
/// with the given arguments; read the given files under the repo root; or
/// deliver the result.
#[derive(Debug)]
pub enum FindRequest {
    CheckPaths(String, Vec<String>),
    RunGrep(String, Vec<String>),
    ReadFiles(String, Vec<String>),
    Done(Result<FindResult, String>),
}

/// What the driver reports back: whether the root and each folder exist;
/// that `grep` could not be started (with the reason); how `grep` ended
/// (exit code, standard output, standard error); the text of each file,
/// `None` for one that could not be read.
pub enum FindEvent {
    PathsChecked(bool, Vec<bool>),
    GrepFailedToStart(String),
    GrepFinished(Option<i32>, Vec<u8>, Vec<u8>),
    FilesRead(Vec<Option<String>>),
}

pub struct FindSessionView {
    pub repo_root: Seq<char>,
    pub needle: Seq<char>,
    pub env: Seq<char>,
    pub folders: Seq<Seq<char>>,
    pub files: Seq<Seq<char>>,
    pub stage: FindStage,
}

pub enum FindRequestView {
    CheckPaths(Seq<char>, Seq<Seq<char>>),
    RunGrep(Seq<char>, Seq<Seq<char>>),
    ReadFiles(Seq<char>, Seq<Seq<char>>),
    Done(Result<FindResultView, Seq<char>>),
}

pub enum FindEventView {
    PathsChecked(bool, Seq<bool>),
    GrepFailedToStart(Seq<char>),
    GrepFinished(Option<i32>, Seq<u8>, Seq<u8>),
    FilesRead(Seq<Option<Seq<char>>>),
}

impl View for FindSession {
    type V = FindSessionView;

    open spec fn view(&self) -> FindSessionView {
        FindSessionView {
            repo_root: self.repo_root@,
            needle: self.needle@,
            env: self.env@,
            folders: self.folders.deep_view(),
            files: self.files.deep_view(),
            stage: self.stage,
        }
    }
}

impl View for FindRequest {
    type V = FindRequestView;

    open spec fn view(&self) -> FindRequestView {
        match self {
            FindRequest::CheckPaths(r, f) => FindRequestView::CheckPaths(r@, f.deep_view()),
            FindRequest::RunGrep(r, a) => FindRequestView::RunGrep(r@, a.deep_view()),
            FindRequest::ReadFiles(r, f) => FindRequestView::ReadFiles(r@, f.deep_view()),
            FindRequest::Done(res) => FindRequestView::Done(
                match res {
                    Ok(v) => Ok(v@),
                    Err(e) => Err(e@),
                },
            ),
        }
    }
}

impl View for FindEvent {
    type V = FindEventView;

    open spec fn view(&self) -> FindEventView {
        match self {
            FindEvent::PathsChecked(r, f) => FindEventView::PathsChecked(*r, f@),
            FindEvent::GrepFailedToStart(m) => FindEventView::GrepFailedToStart(m@),
            FindEvent::GrepFinished(c, o, e) => FindEventView::GrepFinished(*c, o@, e@),
            FindEvent::FilesRead(c) => FindEventView::FilesRead(c.deep_view()),
        }
    }
}

pub open spec fn known_folders() -> Seq<Seq<char>> {
    repo_table().map_values(|r: Repo| r.folder@)
}

/// The session that `start_find` opens: a query that fails its checks ends
/// at once with the check's message.
pub open spec fn find_start(repo_root: Seq<char>, endpoint: Seq<char>, env: Seq<char>) -> (
    FindSessionView,
    FindRequestView,
) {
    let s = FindSessionView {
        repo_root: repo_root,
        needle: Seq::empty(),
        env: env,
        folders: Seq::empty(),
        files: Seq::empty(),
        stage: FindStage::Over,
    };
    match query_check(repo_root, endpoint, env) {
        Err(e) => (s, FindRequestView::Done(Err(e))),
        Ok(needle) => (
            FindSessionView { needle: needle, stage: FindStage::Paths, ..s },
            FindRequestView::CheckPaths(repo_root, known_folders()),
        ),
    }
}

/// The transition of a search on the outcome of its last request; `None`
/// when the event does not answer that request (nothing changes then).
/// `names` are the names of the listed files, used once they have been read.
pub open spec fn find_transition(s: FindSessionView, e: FindEventView, names: Seq<Seq<char>>) -> (
    FindSessionView,
    Option<FindRequestView>,
) {
    let over = FindSessionView { stage: FindStage::Over, ..s };
    match (s.stage, e) {
        (FindStage::Paths, FindEventView::PathsChecked(root_exists, exists)) => {
            if exists.len() != repo_table().len() {
                (s, None)
            } else {
                match folder_selection(s.repo_root, root_exists, exists) {
                    Err(msg) => (over, Some(FindRequestView::Done(Err(msg)))),
                    Ok(folders) => (
                        FindSessionView { folders: folders, stage: FindStage::Grep, ..s },
                        Some(
                            FindRequestView::RunGrep(
                                s.repo_root,
                                grep_argument_list(s.needle, folders),
                            ),
                        ),
                    ),
                }
            }
        },
        (FindStage::Grep, FindEventView::GrepFailedToStart(why)) => (
            over,
            Some(FindRequestView::Done(Err("failed to run grep: "@ + why))),
        ),
        (FindStage::Grep, FindEventView::GrepFinished(code, out, err)) => {
            match grep_result(code, out, err) {
                Err(msg) => (over, Some(FindRequestView::Done(Err(msg)))),
                Ok(files) => if files.len() == 0 {
                    (
                        over,
                        Some(
                            FindRequestView::Done(
                                Ok(
                                    search_result(
                                        s.needle,
                                        s.env,
                                        s.folders,
                                        files,
                                        Seq::empty(),
                                        Seq::empty(),
                                    ),
                                ),
                            ),
                        ),
                    )
                } else {
                    (
                        FindSessionView { files: files, stage: FindStage::Read, ..s },
                        Some(FindRequestView::ReadFiles(s.repo_root, files)),
                    )
                },
            }
        },
        (FindStage::Read, FindEventView::FilesRead(contents)) => {
            if contents.len() != s.files.len() {
                (s, None)
            } else {
                (
                    over,
                    Some(
                        FindRequestView::Done(
                            Ok(
                                search_result(
                                    s.needle,
                                    s.env,
                                    s.folders,
                                    s.files,
                                    names,
                                    contents,
                                ),
                            ),
                        ),
                    ),
                )
            }
        },
        _ => (s, None),
    }
}

fn same_session(s: &FindSession) -> (r: FindSession)
    ensures
        r@ == s@,
{
    FindSession {
        repo_root: s.repo_root.clone(),
        needle: s.needle.clone(),
        env: s.env.clone(),
        folders: copy_strings(&s.folders),
        files: copy_strings(&s.files),
        stage: s.stage,
    }
}

fn ended(s: &FindSession) -> (r: FindSession)
    ensures
        r@ == (FindSessionView { stage: FindStage::Over, ..s@ }),
{
    let mut t = same_session(s);
    t.stage = FindStage::Over;
    t
}

/// Opens a search for `endpoint` in environment `env` under `repo_root`.
pub fn start_find(repo_root: &str, endpoint: &str, env: &str) -> (r: (FindSession, FindRequest))
    ensures
        (r.0@, r.1@) == find_start(repo_root@, endpoint@, env@),
{
    let s = FindSession {
        repo_root: String::from_str(repo_root),
        needle: String::new(),
        env: String::from_str(env),
        folders: Vec::new(),
        files: Vec::new(),
        stage: FindStage::Over,
    };
    assert(s.folders.deep_view() =~= Seq::<Seq<char>>::empty());
    assert(s.files.deep_view() =~= Seq::<Seq<char>>::empty());
    match check_query(repo_root, endpoint, env) {
        Err(e) => (s, FindRequest::Done(Err(e))),
        Ok(needle) => {
            let folders = list_repos();
            let mut names: Vec<String> = Vec::new();
            let mut i: usize = 0;
            while i < folders.len()
                invariant
                    i <= folders@.len() == repo_table().len(),
                    forall|k: int| 0 <= k < folders@.len() ==> #[trigger] folders@[k] == repo_table()[k].folder,
                    names.deep_view() == known_folders().take(i as int),
                decreases folders.len() - i,
            {
                let ghost before = names.deep_view();
                names.push(String::from_str(folders[i]));
                proof {
                    assert(names.deep_view() =~= before.push(repo_table()[i as int].folder@));
                    assert(known_folders().take(i + 1) =~= known_folders().take(i as int).push(
                        repo_table()[i as int].folder@,
                    ));
                }
                i += 1;
            }
            assert(known_folders().take(folders@.len() as int) =~= known_folders());
            let t = FindSession { needle, stage: FindStage::Paths, ..s };
            (t, FindRequest::CheckPaths(String::from_str(repo_root), names))
        },
    }
}

/// Advances a search on the outcome of its last request; the listed files
/// are known by the names given.
pub fn find_step_named(s: &FindSession, e: FindEvent, names: &Vec<String>) -> (r: (
    FindSession,
    Option<FindRequest>,
))
    requires
        names@.len() == s.files@.len(),
    ensures
        (r.0@, match r.1 {
            Some(q) => Some(q@),
            None => None,
        }) == find_transition(s@, e@, names.deep_view()),
{
    match e {
        FindEvent::PathsChecked(root_exists, exists) => {
            if s.stage != FindStage::Paths || exists.len() != 7 {
                return (same_session(s), None);
            }
            assert(repo_table().len() == 7);
            match select_folders(s.repo_root.as_str(), root_exists, &exists) {
                Err(msg) => (ended(s), Some(FindRequest::Done(Err(msg)))),
                Ok(folders) => {
                    let args = grep_arguments(s.needle.as_str(), &folders);
                    let mut t = same_session(s);
                    t.folders = folders;
                    t.stage = FindStage::Grep;
                    (t, Some(FindRequest::RunGrep(s.repo_root.clone(), args)))
                },
            }
        },
        FindEvent::GrepFailedToStart(why) => {
            if s.stage != FindStage::Grep {
                return (same_session(s), None);
            }
            let mut msg = String::from_str("failed to run grep: ");
            msg.append(why.as_str());
            (ended(s), Some(FindRequest::Done(Err(msg))))
        },
        FindEvent::GrepFinished(code, out, err) => {
            if s.stage != FindStage::Grep {
                return (same_session(s), None);
            }
            match grep_outcome(code, out.as_slice(), err.as_slice()) {
                Err(msg) => (ended(s), Some(FindRequest::Done(Err(msg)))),
                Ok(files) => {
                    if files.len() == 0 {
                        let none: Vec<Option<String>> = Vec::new();
                        let no_names: Vec<String> = Vec::new();
                        assert(none.deep_view() =~= Seq::<Option<Seq<char>>>::empty());
                        assert(no_names.deep_view() =~= Seq::<Seq<char>>::empty());
                        let r = collect_named_matches(
                            s.needle.as_str(),
                            s.env.as_str(),
                            &s.folders,
                            &files,
                            &no_names,
                            &none,
                        );
                        (ended(s), Some(FindRequest::Done(Ok(r))))
                    } else {
                        let listed = copy_strings(&files);
                        let mut t = same_session(s);
                        t.files = files;
                        t.stage = FindStage::Read;
                        (t, Some(FindRequest::ReadFiles(s.repo_root.clone(), listed)))
                    }
                },
            }
        },
        FindEvent::FilesRead(contents) => {
            if s.stage != FindStage::Read || contents.len() != s.files.len() {
                return (same_session(s), None);
            }
            let r = collect_named_matches(
                s.needle.as_str(),
                s.env.as_str(),
                &s.folders,
                &s.files,
                names,
                &contents,
            );
            (ended(s), Some(FindRequest::Done(Ok(r))))
        },
    }
}

/// Advances a search on the outcome of its last request, taking the names
/// of the listed files from the platform's path rules.
pub fn find_step(s: &FindSession, e: FindEvent) -> (r: (FindSession, Option<FindRequest>))
    ensures
        exists|names: Seq<Seq<char>>|
            {
                &&& names.len() == s@.files.len()
                &&& forall|i: int|
                    0 <= i < names.len() && plain_relative(s@.files[i]) ==> #[trigger] names[i]
                        == last_segment(s@.files[i])
                &&& (r.0@, match r.1 {
                    Some(q) => Some(q@),
                    None => None,
                }) == find_transition(s@, e@, names)
            },
{
    let names = template_file_names(s.repo_root.as_str(), &s.files);
    let r = find_step_named(s, e, &names);
    assert(names.deep_view().len() == s@.files.len());
    r
}

// ---------------------------------------------------------------------------
// Laws
// ---------------------------------------------------------------------------

pub open spec fn find_stage_rank(stage: FindStage) -> nat {
    match stage {
        FindStage::Paths => 3,
        FindStage::Grep => 2,
        FindStage::Read => 1,
        FindStage::Over => 0,
    }
}

/// Whether `e` answers the request a search at `stage` is waiting for.
pub open spec fn find_event_fits(s: FindSessionView, e: FindEventView) -> bool {
    match (s.stage, e) {
        (FindStage::Paths, FindEventView::PathsChecked(_, exists)) => exists.len()
            == repo_table().len(),
        (FindStage::Grep, FindEventView::GrepFailedToStart(_)) => true,
        (FindStage::Grep, FindEventView::GrepFinished(_, _, _)) => true,
        (FindStage::Read, FindEventView::FilesRead(contents)) => contents.len() == s.files.len(),
        _ => false,
    }
}

/// A search moves forward on every answer to its pending request: it asks
/// for the next piece of work or delivers its result, and the stage only
/// advances (paths, then `grep`, then reading, then over), so a search ends
/// after at most three answers. It delivers its result exactly when it is
/// over. Anything else leaves it as it was.
pub proof fn lemma_find_progress(s: FindSessionView, e: FindEventView, names: Seq<Seq<char>>)
    ensures
        ({
            let (t, q) = find_transition(s, e, names);
            if find_event_fits(s, e) {
                &&& q is Some
                &&& find_stage_rank(t.stage) < find_stage_rank(s.stage)
                &&& (t.stage == FindStage::Over <==> q->0 is Done)
            } else {
                t == s && q is None
            }
        }),
{
}

/// Opening a search either ends it at once with the message of the failed
/// check, or asks for the path checks of every known repository folder.
pub proof fn lemma_find_start(repo_root: Seq<char>, endpoint: Seq<char>, env: Seq<char>)
    ensures
        ({
            let (s, q) = find_start(repo_root, endpoint, env);
            &&& (s.stage == FindStage::Over <==> q is Done)
            &&& (query_check(repo_root, endpoint, env) is Ok <==> s.stage == FindStage::Paths)
        }),
{
}

/// The first answer to the path checks that a search accepts: whether the
/// root exists, and which known folders do.
pub open spec fn first_path_report(events: Seq<FindEventView>) -> Option<(bool, Seq<bool>)>
    decreases events.len(),
{
    if events.len() == 0 {
        None
    } else {
        match first_path_report(events.drop_last()) {
            Some(r) => Some(r),
            None => match events.last() {
                FindEventView::PathsChecked(root_exists, exists) => if exists.len()
                    == repo_table().len() {
                    Some((root_exists, exists))
                } else {
                    None
                },
                _ => None,
            },
        }
    }
}

/// A whole search: the session after `events` (with `names[i]` the file
/// names in force at event `i`), and the last request it made.
pub open spec fn find_run(
    repo_root: Seq<char>,
    endpoint: Seq<char>,
    env: Seq<char>,
    events: Seq<FindEventView>,
    names: Seq<Seq<Seq<char>>>,
) -> (FindSessionView, FindRequestView)
    decreases events.len(),
{
    if events.len() == 0 {
        find_start(repo_root, endpoint, env)
    } else {
        let (s, q) = find_run(repo_root, endpoint, env, events.drop_last(), names);
        let (t, next) = find_transition(s, events.last(), names[events.len() - 1]);
        match next {
            Some(q2) => (t, q2),
            None => (t, q),
        }
    }
}

proof fn lemma_find_run_invariant(
    repo_root: Seq<char>,
    endpoint: Seq<char>,
    env: Seq<char>,
    events: Seq<FindEventView>,
    names: Seq<Seq<Seq<char>>>,
)
    ensures
        ({
            let (s, q) = find_run(repo_root, endpoint, env, events, names);
            &&& s.repo_root == repo_root
            &&& (q is Done <==> s.stage == FindStage::Over)
            &&& (query_check(repo_root, endpoint, env) is Err ==> s.stage == FindStage::Over && q
                is Done && q->Done_0 is Err)
            &&& (query_check(repo_root, endpoint, env) is Ok && first_path_report(events) is None
                ==> s.stage == FindStage::Paths)
            &&& (query_check(repo_root, endpoint, env) is Ok && first_path_report(events) is Some
                ==> s.stage != FindStage::Paths && ((s.stage == FindStage::Grep || s.stage
                == FindStage::Read || (q is Done && q->Done_0 is Ok)) ==> ((first_path_report(
                events)->0).0 && s.folders == present_folders((first_path_report(events)->0).1))))
            &&& (q is Done && q->Done_0 is Ok ==> (q->Done_0->Ok_0).searched_folders == s.folders)
        }),
    decreases events.len(),
{
    if events.len() > 0 {
        lemma_find_run_invariant(repo_root, endpoint, env, events.drop_last(), names);
        let (s, q) = find_run(repo_root, endpoint, env, events.drop_last(), names);
        lemma_find_progress(s, events.last(), names[events.len() - 1]);
    }
}

/// The folders a search reports as searched are chosen once, at the path
/// check: they are exactly the known repository folders reported to exist
/// there (in table order; see `lemma_present_folders`), whatever the search
/// term and whatever `grep` printed, and a search that succeeds had its root
/// reported to exist.
pub proof fn lemma_searched_folders(
    repo_root: Seq<char>,
    endpoint: Seq<char>,
    env: Seq<char>,
    events: Seq<FindEventView>,
    names: Seq<Seq<Seq<char>>>,
)
    ensures
        ({
            let (s, q) = find_run(repo_root, endpoint, env, events, names);
            q is Done && q->Done_0 is Ok ==> {
                &&& first_path_report(events) is Some
                &&& (first_path_report(events)->0).0
                &&& (q->Done_0->Ok_0).searched_folders == present_folders(
                    (first_path_report(events)->0).1,
                )
                &&& (q->Done_0->Ok_0).searched_folders.len() > 0
            }
        }),
{
    lemma_find_run_invariant(repo_root, endpoint, env, events, names);
    let (s, q) = find_run(repo_root, endpoint, env, events, names);
    if q is Done && q->Done_0 is Ok {
        if first_path_report(events) is None {
            assert(s.stage == FindStage::Paths);
        }
        lemma_searched_folders_non_empty(repo_root, endpoint, env, events, names);
    }
}

proof fn lemma_searched_folders_non_empty(
    repo_root: Seq<char>,
    endpoint: Seq<char>,
    env: Seq<char>,
    events: Seq<FindEventView>,
    names: Seq<Seq<Seq<char>>>,
)
    ensures
        ({
            let (s, q) = find_run(repo_root, endpoint, env, events, names);
            (s.stage == FindStage::Grep || s.stage == FindStage::Read || (q is Done && q->Done_0
                is Ok)) ==> s.folders.len() > 0
        }),
    decreases events.len(),
{
    if events.len() > 0 {
        lemma_searched_folders_non_empty(repo_root, endpoint, env, events.drop_last(), names);
    }
}

} // verus!
