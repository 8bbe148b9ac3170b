//! Interpretation of the external `pisi` tool's invocations: the argument
//! vector of each verb, and the reading of the captured exit status and
//! output streams into typed results.
//!
//! The process call itself is I/O and lives outside this crate; callers
//! hand `execute` the captured outcome of the invocation.

use crate::text::{
    spec_first_token, spec_lines, spec_tokens, spec_trim, first_token, split_lines, split_tokens,
    str_eq, trim,
};
use vstd::prelude::*;

verus! {

/// One invocation shape of the external package-management tool.
#[derive(Debug, Clone)]
pub enum Verb {
    Install(String),
    Remove(String),
    Update(String),
    UpdateAll,
    Search(String),
    ListInstalled,
    AddRepo(String, String),
    RemoveRepo(String),
    EnableRepo(String),
    DisableRepo(String),
    UpdateRepositories,
    ListRepositories,
}

/// What an invocation of the external tool left behind: whether it exited
/// with status zero, and its two captured streams, decoded leniently.
#[derive(Debug, Clone)]
pub struct CapturedOutput {
    pub exit_ok: bool,
    pub stdout: String,
    pub stderr: String,
}

/// One repository row of the `list-repo` output: the repository's name and
/// whether its second column reads exactly `enabled`.
#[derive(Debug, Clone)]
pub struct RepoStatus {
    pub name: String,
    pub enabled: bool,
}

impl View for RepoStatus {
    type V = (Seq<char>, bool);

    open spec fn view(&self) -> (Seq<char>, bool) {
        (self.name@, self.enabled)
    }
}

impl DeepView for RepoStatus {
    type V = (Seq<char>, bool);

    open spec fn deep_view(&self) -> (Seq<char>, bool) {
        self.view()
    }
}

/// The successful result of an invocation: unit for the acting verbs, a
/// name list for the searching verbs, repository rows for `list-repo`.
#[derive(Debug, Clone)]
pub enum CommandOutput {
    Done,
    Names(Vec<String>),
    Repositories(Vec<RepoStatus>),
}

pub ghost enum CommandOutputView {
    Done,
    Names(Seq<Seq<char>>),
    Repositories(Seq<(Seq<char>, bool)>),
}

impl View for CommandOutput {
    type V = CommandOutputView;

    open spec fn view(&self) -> CommandOutputView {
        match self {
            CommandOutput::Done => CommandOutputView::Done,
            CommandOutput::Names(v) => CommandOutputView::Names(v.deep_view()),
            CommandOutput::Repositories(v) => CommandOutputView::Repositories(v.deep_view()),
        }
    }
}

/// The two failure kinds of the core: the external tool failed (to start,
/// or by exiting non-zero), or an index document was not well-formed.
/// The payload is the captured or reported diagnostic text.
#[derive(Debug, Clone)]
pub enum PisiError {
    ProcessFailure(String),
    ParseFailure(String),
}

pub ghost enum PisiErrorView {
    Process(Seq<char>),
    Parse(Seq<char>),
}

impl View for PisiError {
    type V = PisiErrorView;

    open spec fn view(&self) -> PisiErrorView {
        match self {
            PisiError::ProcessFailure(m) => PisiErrorView::Process(m@),
            PisiError::ParseFailure(m) => PisiErrorView::Parse(m@),
        }
    }
}

/// The fixed argument vector of each verb.
pub open spec fn spec_args(v: Verb) -> Seq<Seq<char>> {
    match v {
        Verb::Install(n) => seq!["install"@, "-y"@, n@],
        Verb::Remove(n) => seq!["remove"@, "-y"@, n@],
        Verb::Update(n) => seq!["update"@, "-y"@, n@],
        Verb::UpdateAll => seq!["update"@, "-y"@],
        Verb::Search(q) => seq!["search"@, q@],
        Verb::ListInstalled => seq!["list-installed"@],
        Verb::AddRepo(n, u) => seq!["add-repo"@, n@, u@],
        Verb::RemoveRepo(n) => seq!["remove-repo"@, n@],
        Verb::EnableRepo(n) => seq!["enable-repo"@, n@],
        Verb::DisableRepo(n) => seq!["disable-repo"@, n@],
        Verb::UpdateRepositories => seq!["update-repo"@],
        Verb::ListRepositories => seq!["list-repo"@],
    }
}

/// The non-empty lines among the given ones, each trimmed of surrounding
/// whitespace, in order.
pub open spec fn spec_trimmed_nonempty(lines: Seq<Seq<char>>) -> Seq<Seq<char>>
    decreases lines.len(),
{
    if lines.len() == 0 {
        Seq::empty()
    } else {
        let head = spec_trimmed_nonempty(lines.drop_last());
        if lines.last().len() > 0 {
            head + seq![spec_trim(lines.last())]
        } else {
            head
        }
    }
}

/// What `Search` reads from the tool's standard output: one name per
/// non-empty line, trimmed of surrounding whitespace.
pub open spec fn spec_search_names(stdout: Seq<char>) -> Seq<Seq<char>> {
    spec_trimmed_nonempty(spec_lines(stdout))
}

/// What `ListInstalled` reads: the first whitespace-delimited token of
/// every line, the empty string for a blank line.
pub open spec fn spec_installed_names(stdout: Seq<char>) -> Seq<Seq<char>> {
    spec_lines(stdout).map_values(|l: Seq<char>| spec_first_token(l))
}

/// One row per given line that has at least two whitespace-delimited
/// tokens: the first token names the repository, and the row is enabled
/// exactly when the second token is the literal word `enabled`.
pub open spec fn spec_repo_rows(lines: Seq<Seq<char>>) -> Seq<(Seq<char>, bool)>
    decreases lines.len(),
{
    if lines.len() == 0 {
        Seq::empty()
    } else {
        let head = spec_repo_rows(lines.drop_last());
        let toks = spec_tokens(lines.last());
        if toks.len() >= 2 {
            head + seq![(toks[0], toks[1] == "enabled"@)]
        } else {
            head
        }
    }
}

/// What `ListRepositories` reads from the tool's standard output: one
/// header line is skipped, then one row per line with at least two tokens.
pub open spec fn spec_repo_list(stdout: Seq<char>) -> Seq<(Seq<char>, bool)> {
    if spec_lines(stdout).len() == 0 {
        Seq::empty()
    } else {
        spec_repo_rows(spec_lines(stdout).drop_first())
    }
}

/// The value a verb produces from the tool's standard output once the tool
/// has exited with status zero.
pub open spec fn spec_outcome(v: Verb, stdout: Seq<char>) -> CommandOutputView {
    match v {
        Verb::Search(_) => CommandOutputView::Names(spec_search_names(stdout)),
        Verb::ListInstalled => CommandOutputView::Names(spec_installed_names(stdout)),
        Verb::ListRepositories => CommandOutputView::Repositories(spec_repo_list(stdout)),
        _ => CommandOutputView::Done,
    }
}

impl Verb {
    /// The argument vector handed to the external tool for this verb.
    pub fn args(&self) -> (r: Vec<String>)
        ensures
            r.deep_view() == spec_args(*self),
    {
        let mut out: Vec<String> = Vec::new();
        match self {
            Verb::Install(n) => {
                out.push(String::from_str("install"));
                out.push(String::from_str("-y"));
                out.push(n.clone());
            },
            Verb::Remove(n) => {
                out.push(String::from_str("remove"));
                out.push(String::from_str("-y"));
                out.push(n.clone());
            },
            Verb::Update(n) => {
                out.push(String::from_str("update"));
                out.push(String::from_str("-y"));
                out.push(n.clone());
            },
            Verb::UpdateAll => {
                out.push(String::from_str("update"));
                out.push(String::from_str("-y"));
            },
            Verb::Search(q) => {
                out.push(String::from_str("search"));
                out.push(q.clone());
            },
            Verb::ListInstalled => {
                out.push(String::from_str("list-installed"));
            },
            Verb::AddRepo(n, u) => {
                out.push(String::from_str("add-repo"));
                out.push(n.clone());
                out.push(u.clone());
            },
            Verb::RemoveRepo(n) => {
                out.push(String::from_str("remove-repo"));
                out.push(n.clone());
            },
            Verb::EnableRepo(n) => {
                out.push(String::from_str("enable-repo"));
                out.push(n.clone());
            },
            Verb::DisableRepo(n) => {
                out.push(String::from_str("disable-repo"));
                out.push(n.clone());
            },
            Verb::UpdateRepositories => {
                out.push(String::from_str("update-repo"));
            },
            Verb::ListRepositories => {
                out.push(String::from_str("list-repo"));
            },
        }
        proof {
            assert(out.deep_view() =~= spec_args(*self));
        }
        out
    }
}

/// Invokes nothing itself; the one executable entry for package verbs'
/// output handling.
pub struct PackageManager;

impl PackageManager {
    /// The name list of a successful `search`: every non-empty stdout
    /// line, trimmed.
    pub fn parse_search_output(stdout: &str) -> (r: Vec<String>)
        ensures
            r.deep_view() == spec_search_names(stdout@),
    {
        let ghost all = spec_lines(stdout@);
        let lines = split_lines(stdout);
        let mut out: Vec<String> = Vec::new();
        let mut i: usize = 0;
        proof {
            assert(all.take(0) =~= Seq::<Seq<char>>::empty());
            assert(out.deep_view() =~= Seq::<Seq<char>>::empty());
        }
        while i < lines.len()
            invariant
                0 <= i <= lines.len(),
                lines.deep_view() == all,
                all == spec_lines(stdout@),
                out.deep_view() == spec_trimmed_nonempty(all.take(i as int)),
            decreases lines.len() - i,
        {
            let ghost prev = out.deep_view();
            if !lines[i].as_str().is_empty() {
                let t = trim(lines[i].as_str());
                out.push(t);
                proof {
                    assert(out.deep_view() =~= prev + seq![spec_trim(all[i as int])]);
                }
            }
            proof {
                assert(all.take(i + 1).drop_last() =~= all.take(i as int));
                assert(all.take(i + 1).last() == all[i as int]);
            }
            i = i + 1;
        }
        proof {
            assert(all.take(lines.len() as int) =~= all);
        }
        out
    }

    /// The name list of a successful `list-installed`: the first token of
    /// every stdout line.
    pub fn parse_installed_output(stdout: &str) -> (r: Vec<String>)
        ensures
            r.deep_view() == spec_installed_names(stdout@),
    {
        let lines = split_lines(stdout);
        let mut out: Vec<String> = Vec::new();
        let mut i: usize = 0;
        while i < lines.len()
            invariant
                0 <= i <= lines.len(),
                lines.deep_view() == spec_lines(stdout@),
                out.len() == i,
                forall|k: int|
                    0 <= k < i ==> out.deep_view()[k] == spec_first_token(
                        #[trigger] lines.deep_view()[k],
                    ),
            decreases lines.len() - i,
        {
            let t = first_token(lines[i].as_str());
            out.push(t);
            i = i + 1;
        }
        proof {
            assert(out.deep_view() =~= spec_installed_names(stdout@));
        }
        out
    }
}

/// Invokes nothing itself; the one executable entry for repository verbs'
/// output handling.
pub struct RepositoryManager;

impl RepositoryManager {
    /// The rows of a successful `list-repo`: the header line skipped, then
    /// one row per line with at least two tokens.
    pub fn parse_repo_list(stdout: &str) -> (r: Vec<RepoStatus>)
        ensures
            r.deep_view() == spec_repo_list(stdout@),
    {
        let lines = split_lines(stdout);
        let mut out: Vec<RepoStatus> = Vec::new();
        if lines.len() == 0 {
            proof {
                assert(out.deep_view() =~= spec_repo_list(stdout@));
            }
            return out;
        }
        let ghost rest = spec_lines(stdout@).drop_first();
        let mut i: usize = 1;
        while i < lines.len()
            invariant
                1 <= i <= lines.len(),
                lines.deep_view() == spec_lines(stdout@),
                lines.len() >= 1,
                rest == spec_lines(stdout@).drop_first(),
                out.deep_view() == spec_repo_rows(rest.take(i - 1)),
            decreases lines.len() - i,
        {
            let ghost prev = out.deep_view();
            let toks = split_tokens(lines[i].as_str());
            if toks.len() >= 2 {
                let name = toks[0].clone();
                let enabled = str_eq(toks[1].as_str(), "enabled");
                out.push(RepoStatus { name, enabled });
                proof {
                    assert(toks.deep_view() == spec_tokens(rest[i - 1]));
                    assert(out.deep_view() =~= prev + seq![
                        (spec_tokens(rest[i - 1])[0], spec_tokens(rest[i - 1])[1] == "enabled"@),
                    ]);
                }
            }
            proof {
                assert(rest.take(i as int).drop_last() =~= rest.take(i - 1));
                assert(rest.take(i as int).last() == rest[i - 1]);
                assert(out.deep_view() == spec_repo_rows(rest.take(i as int)));
            }
            i = i + 1;
        }
        proof {
            assert(rest.take(lines.len() - 1) =~= rest);
            assert(out.deep_view() == spec_repo_list(stdout@));
        }
        out
    }
}

/// Turns the captured outcome of one external invocation into the typed
/// result of its verb: a start failure or a non-zero exit becomes
/// `ProcessFailure` carrying the diagnostic text; a zero exit yields the
/// verb's value read from standard output.
pub fn execute(verb: &Verb, spawn: Result<CapturedOutput, String>) -> (r: Result<
    CommandOutput,
    PisiError,
>)
    ensures
        (r is Ok) <==> (spawn matches Ok(o) && o.exit_ok),
        spawn matches Err(m) ==> (r matches Err(e) && e@ == PisiErrorView::Process(m@)),
        spawn matches Ok(o) ==> (!o.exit_ok ==> (r matches Err(e) && e@ == PisiErrorView::Process(
            o.stderr@,
        ))),
        spawn matches Ok(o) ==> (o.exit_ok ==> (r matches Ok(out) && out@ == spec_outcome(
            *verb,
            o.stdout@,
        ))),
{
    match spawn {
        Err(m) => Err(PisiError::ProcessFailure(m)),
        Ok(o) => {
            if !o.exit_ok {
                Err(PisiError::ProcessFailure(o.stderr))
            } else {
                match verb {
                    Verb::Search(_) => Ok(
                        CommandOutput::Names(PackageManager::parse_search_output(o.stdout.as_str())),
                    ),
                    Verb::ListInstalled => Ok(
                        CommandOutput::Names(
                            PackageManager::parse_installed_output(o.stdout.as_str()),
                        ),
                    ),
                    Verb::ListRepositories => Ok(
                        CommandOutput::Repositories(
                            RepositoryManager::parse_repo_list(o.stdout.as_str()),
                        ),
                    ),
                    _ => Ok(CommandOutput::Done),
                }
            }
        },
    }
}

} // verus!
