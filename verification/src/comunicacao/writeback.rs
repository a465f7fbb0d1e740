//! Write-back of lexicon contributions to the git checkout: which files are
//! staged, and the order of the git commands with the decision taken on each
//! reply. The commands themselves are run by the caller, one request at a
//! time: [`Writeback::run`] and [`Writeback::commit_paths`] take the stage
//! reached and the reply to the last command, and answer with the next
//! command or the outcome.
use vstd::prelude::*;

use vstd::string::StringExecFns;

use crate::text::{matches_at, matches_at_exec, str_chars, str_eq, string_of, trim, trim_chars};

verus! {

/// Configuration of the write-back.
#[derive(Debug, Clone)]
pub struct WritebackConfig {
    /// Turns the whole engine on or off; off, every run is a no-op.
    pub enabled: bool,
    /// The root of the git checkout.
    pub repo_dir: String,
    /// `user.name` of the commits.
    pub author_name: String,
    /// `user.email` of the commits.
    pub author_email: String,
    /// Whether to try `git push` after committing.
    pub push: bool,
    /// The remote pushed to.
    pub remote: String,
}

impl WritebackConfig {
    /// A configuration for tests: enabled, fixed identity, no push.
    pub fn for_testing(repo_dir: &str) -> (c: Self)
        ensures
            c.enabled,
            c.repo_dir@ == repo_dir@,
            c.author_name@ == "Test Bot"@,
            c.author_email@ == "test@yggdrasil"@,
            !c.push,
            c.remote@ == "origin"@,
    {
        WritebackConfig {
            enabled: true,
            repo_dir: String::from_str(repo_dir),
            author_name: String::from_str("Test Bot"),
            author_email: String::from_str("test@yggdrasil"),
            push: false,
            remote: String::from_str("origin"),
        }
    }
}

/// Why a write-back failed.
#[derive(Debug)]
pub enum WritebackError {
    /// The directory is not a git work tree (or git is missing).
    NotAGitRepo(String),
    /// git could not be started; the message of the failure.
    Spawn(String),
    /// A git command exited with a failure.
    Git { cmd: String, status: String, stderr: String },
}

/// The outcome of a write-back.
#[derive(Debug, Clone, PartialEq, Eq, Structural)]
pub enum WritebackOutcome {
    /// The engine is off: nothing done.
    Disabled,
    /// Nothing changed in the index: no commit.
    NothingToCommit,
    /// A commit was made; `pushed` tells whether the push succeeded.
    Committed { pushed: bool },
}

/// The write-back engine.
#[derive(Debug, Clone)]
pub struct Writeback {
    config: WritebackConfig,
}

/// A command for the caller to run in the repository.
#[derive(Debug)]
pub enum GitCommand {
    /// `git rev-parse --is-inside-work-tree`.
    CheckRepo,
    /// `git diff --cached --quiet` (success means nothing is staged).
    IndexClean,
    /// `git <args>`.
    Git(Vec<String>),
}

/// What a finished command reported.
#[derive(Debug)]
pub struct GitOutput {
    pub success: bool,
    /// The exit status, as printed.
    pub status: String,
    /// The standard error, decoded.
    pub stderr: String,
}

/// The reply to the last command not yet answered for.
#[derive(Debug, Clone, Copy, PartialEq, Eq, Structural)]
pub enum RunStage {
    Start,
    AwaitRepo,
    AwaitAdd,
    AwaitIndex,
    AwaitCommit,
    AwaitPush,
}

/// The next move of a write-back.
#[derive(Debug)]
pub enum RunStep {
    /// Run `command`, then call again at `stage` with its reply.
    Request { stage: RunStage, command: GitCommand },
    /// The write-back is over.
    Done(Result<WritebackOutcome, WritebackError>),
}

// ── Paths ──────────────────────────────────────────────────────────────────

/// `s` has the `/`-separated segment `seg`.
pub open spec fn has_segment(s: Seq<char>, seg: Seq<char>) -> bool {
    exists|i: int|
        #![trigger matches_at(s, seg, i)]
        matches_at(s, seg, i) && (i == 0 || s[i - 1] == '/') && (i + seg.len() == s.len() || s[i
            + seg.len()] == '/')
}

/// Whether a repository-relative path is a user contribution: one of its
/// segments is `_users`.
pub fn is_user_path(path: &str) -> (r: bool)
    ensures
        r == has_segment(path@, "_users"@),
{
    let s = str_chars(path);
    let seg = str_chars("_users");
    let n = s.len();
    let m = seg.len();
    let mut i: usize = 0;
    while i < n
        invariant
            s@ == path@,
            seg@ == "_users"@,
            n == s@.len(),
            m == seg@.len(),
            i <= n,
            forall|k: int|
                0 <= k < i ==> !(#[trigger] matches_at(s@, seg@, k) && (k == 0 || s@[k - 1] == '/')
                    && (k + m == n || s@[k + m] == '/')),
        decreases n + 1 - i,
    {
        let starts = i == 0 || s[i - 1] == '/';
        if starts && matches_at_exec(s.as_slice(), seg.as_slice(), i) {
            if i + m == n || s[i + m] == '/' {
                return true;
            }
        }
        i = i + 1;
    }
    proof {
        reveal_strlit("_users");
        assert forall|k: int| n <= k implies !#[trigger] matches_at(s@, seg@, k) by {}
    }
    false
}

/// The paths that are user contributions, in order.
pub open spec fn user_paths(paths: Seq<Seq<char>>) -> Seq<Seq<char>>
    decreases paths.len(),
{
    if paths.len() == 0 {
        Seq::empty()
    } else {
        user_paths(paths.drop_last()) + if has_segment(paths.last(), "_users"@) {
            seq![paths.last()]
        } else {
            Seq::empty()
        }
    }
}

pub open spec fn strings_view(v: Seq<String>) -> Seq<Seq<char>> {
    v.map_values(|s: String| s@)
}

fn filter_user_paths(paths: &[String]) -> (r: Vec<String>)
    ensures
        strings_view(r@) == user_paths(strings_view(paths@)),
{
    let mut r: Vec<String> = Vec::new();
    let mut i: usize = 0;
    while i < paths.len()
        invariant
            i <= paths@.len(),
            strings_view(r@) == user_paths(strings_view(paths@.take(i as int))),
        decreases paths@.len() - i,
    {
        let ghost before = strings_view(r@);
        proof {
            assert(strings_view(paths@.take(i + 1)).drop_last() =~= strings_view(
                paths@.take(i as int),
            ));
        }
        if is_user_path(paths[i].as_str()) {
            r.push(paths[i].clone());
            assert(strings_view(r@) =~= before.push(paths@[i as int]@));
        }
        i = i + 1;
        assert(strings_view(r@) =~= user_paths(strings_view(paths@.take(i as int))));
    }
    assert(paths@.take(paths@.len() as int) =~= paths@);
    r
}

fn copy_strings(v: &[String]) -> (r: Vec<String>)
    ensures
        strings_view(r@) == strings_view(v@),
{
    let mut r: Vec<String> = Vec::new();
    let mut i: usize = 0;
    while i < v.len()
        invariant
            i <= v@.len(),
            strings_view(r@) == strings_view(v@.take(i as int)),
        decreases v@.len() - i,
    {
        let ghost before = strings_view(r@);
        let c = v[i].clone();
        r.push(c);
        assert(v@.take(i + 1) =~= v@.take(i as int).push(v@[i as int]));
        assert(strings_view(r@) =~= before.push(v@[i as int]@));
        assert(strings_view(r@) =~= strings_view(v@.take(i + 1)));
        i = i + 1;
    }
    assert(v@.take(v@.len() as int) =~= v@);
    r
}

// ── The command sequence ───────────────────────────────────────────────────

/// The command as values: `None` for checking the repository, `Some(None)`
/// for checking the index, `Some(Some(args))` for `git <args>`.
pub open spec fn command_view(c: GitCommand) -> Option<Option<Seq<Seq<char>>>> {
    match c {
        GitCommand::CheckRepo => None,
        GitCommand::IndexClean => Some(None),
        GitCommand::Git(args) => Some(Some(strings_view(args@))),
    }
}

/// `git add -- <paths>`.
pub open spec fn add_args(paths: Seq<Seq<char>>) -> Seq<Seq<char>> {
    seq!["add"@, "--"@] + paths
}

/// `git -c user.name=<name> -c user.email=<email> commit -m <message> --`.
pub open spec fn commit_args(c: WritebackConfig, message: Seq<char>) -> Seq<Seq<char>> {
    seq![
        "-c"@,
        "user.name="@ + c.author_name@,
        "-c"@,
        "user.email="@ + c.author_email@,
        "commit"@,
        "-m"@,
        message,
        "--"@,
    ]
}

/// `git push <remote> HEAD`.
pub open spec fn push_args(c: WritebackConfig) -> Seq<Seq<char>> {
    seq!["push"@, c.remote@, "HEAD"@]
}

/// The error of a failed `git` command named `cmd`.
pub open spec fn git_failure(e: WritebackError, cmd: Seq<char>, o: GitOutput) -> bool {
    e matches WritebackError::Git { cmd: c, status: st, stderr: er } && c@ == cmd && st@
        == o.status@ && er@ == trim(o.stderr@)
}

/// The step of a write-back of `staged` at `stage`, given the reply to the
/// last command: the checks in order (repository, `add`, index, commit,
/// push), stopping at the first failure; an unchanged index ends with no
/// commit; a failed push still counts as committed.
pub open spec fn step_ok(
    c: WritebackConfig,
    staged: Seq<Seq<char>>,
    message: Seq<char>,
    stage: RunStage,
    reply: Option<Result<GitOutput, String>>,
    r: RunStep,
) -> bool {
    match stage {
        RunStage::Start => if !c.enabled {
            r matches RunStep::Done(Ok(WritebackOutcome::Disabled))
        } else if staged.len() == 0 {
            r matches RunStep::Done(Ok(WritebackOutcome::NothingToCommit))
        } else {
            r matches RunStep::Request { stage: RunStage::AwaitRepo, command: cmd }
                && command_view(cmd) == None::<Option<Seq<Seq<char>>>>
        },
        RunStage::AwaitPush => r matches RunStep::Done(Ok(WritebackOutcome::Committed { pushed }))
            && pushed == (reply matches Some(Ok(o)) && o.success),
        _ => match reply {
            Some(Err(msg)) => r matches RunStep::Done(Err(WritebackError::Spawn(m))) && m@ == msg@,
            Some(Ok(o)) => match stage {
                RunStage::AwaitRepo => if o.success {
                    r matches RunStep::Request { stage: RunStage::AwaitAdd, command: cmd }
                        && command_view(cmd) == Some(Some(add_args(staged)))
                } else {
                    r matches RunStep::Done(Err(WritebackError::NotAGitRepo(d))) && d@
                        == c.repo_dir@
                },
                RunStage::AwaitAdd => if o.success {
                    r matches RunStep::Request { stage: RunStage::AwaitIndex, command: cmd }
                        && command_view(cmd) == Some(None::<Seq<Seq<char>>>)
                } else {
                    r matches RunStep::Done(Err(e)) && git_failure(e, "add"@, o)
                },
                RunStage::AwaitIndex => if o.success {
                    r matches RunStep::Done(Ok(WritebackOutcome::NothingToCommit))
                } else {
                    r matches RunStep::Request { stage: RunStage::AwaitCommit, command: cmd }
                        && command_view(cmd) == Some(Some(commit_args(c, message)))
                },
                _ => if !o.success {
                    r matches RunStep::Done(Err(e)) && git_failure(e, "-c"@, o)
                } else if c.push {
                    r matches RunStep::Request { stage: RunStage::AwaitPush, command: cmd }
                        && command_view(cmd) == Some(Some(push_args(c)))
                } else {
                    r matches RunStep::Done(Ok(WritebackOutcome::Committed { pushed: false }))
                },
            },
            None => false,
        },
    }
}

fn git_error(cmd: &str, o: &GitOutput) -> (e: WritebackError)
    ensures
        git_failure(e, cmd@, *o),
{
    let er = str_chars(o.stderr.as_str());
    let t = trim_chars(er.as_slice());
    WritebackError::Git {
        cmd: String::from_str(cmd),
        status: o.status.clone(),
        stderr: string_of(t.as_slice()),
    }
}

fn strs(a: &str, b: &str) -> (r: Vec<String>)
    ensures
        strings_view(r@) == seq![a@, b@],
{
    let mut r: Vec<String> = Vec::new();
    r.push(String::from_str(a));
    r.push(String::from_str(b));
    assert(strings_view(r@) =~= seq![a@, b@]);
    r
}

fn prefixed(prefix: &str, s: &String) -> (r: String)
    ensures
        r@ == prefix@ + s@,
{
    let mut r = String::from_str(prefix);
    r.append(s.as_str());
    r
}

impl Writeback {
    pub fn new(config: WritebackConfig) -> (w: Self)
        ensures
            w.config_view() == config,
    {
        Writeback { config }
    }

    pub closed spec fn config_view(&self) -> WritebackConfig {
        self.config
    }

    /// The configuration.
    pub fn config(&self) -> (c: &WritebackConfig)
        ensures
            *c == self.config_view(),
    {
        &self.config
    }

    /// One step over the paths `staged`.
    fn step(&self, staged: &[String], message: &str, stage: RunStage, reply: Option<Result<
        GitOutput,
        String,
    >>) -> (r: RunStep)
        requires
            stage == RunStage::Start || stage == RunStage::AwaitPush || reply is Some,
        ensures
            step_ok(self.config, strings_view(staged@), message@, stage, reply, r),
    {
        let c = &self.config;
        match stage {
            RunStage::Start => {
                if !c.enabled {
                    RunStep::Done(Ok(WritebackOutcome::Disabled))
                } else if staged.len() == 0 {
                    RunStep::Done(Ok(WritebackOutcome::NothingToCommit))
                } else {
                    RunStep::Request { stage: RunStage::AwaitRepo, command: GitCommand::CheckRepo }
                }
            },
            RunStage::AwaitPush => {
                let pushed = match &reply {
                    Some(Ok(o)) => o.success,
                    _ => false,
                };
                RunStep::Done(Ok(WritebackOutcome::Committed { pushed }))
            },
            _ => match reply {
                None => RunStep::Done(Ok(WritebackOutcome::NothingToCommit)),
                Some(Err(msg)) => RunStep::Done(Err(WritebackError::Spawn(msg))),
                Some(Ok(o)) => match stage {
                    RunStage::AwaitRepo => {
                        if o.success {
                            let mut args = strs("add", "--");
                            let rest = copy_strings(staged);
                            let ghost a0 = strings_view(args@);
                            let mut rest = rest;
                            args.append(&mut rest);
                            assert(strings_view(args@) =~= a0 + strings_view(staged@));
                            RunStep::Request {
                                stage: RunStage::AwaitAdd,
                                command: GitCommand::Git(args),
                            }
                        } else {
                            RunStep::Done(Err(WritebackError::NotAGitRepo(c.repo_dir.clone())))
                        }
                    },
                    RunStage::AwaitAdd => {
                        if o.success {
                            RunStep::Request {
                                stage: RunStage::AwaitIndex,
                                command: GitCommand::IndexClean,
                            }
                        } else {
                            RunStep::Done(Err(git_error("add", &o)))
                        }
                    },
                    RunStage::AwaitIndex => {
                        if o.success {
                            RunStep::Done(Ok(WritebackOutcome::NothingToCommit))
                        } else {
                            let mut args: Vec<String> = Vec::new();
                            args.push(String::from_str("-c"));
                            args.push(prefixed("user.name=", &c.author_name));
                            args.push(String::from_str("-c"));
                            args.push(prefixed("user.email=", &c.author_email));
                            args.push(String::from_str("commit"));
                            args.push(String::from_str("-m"));
                            args.push(String::from_str(message));
                            args.push(String::from_str("--"));
                            assert(strings_view(args@) =~= commit_args(*c, message@));
                            RunStep::Request {
                                stage: RunStage::AwaitCommit,
                                command: GitCommand::Git(args),
                            }
                        }
                    },
                    _ => {
                        if !o.success {
                            RunStep::Done(Err(git_error("-c", &o)))
                        } else if c.push {
                            let mut args: Vec<String> = Vec::new();
                            args.push(String::from_str("push"));
                            args.push(c.remote.clone());
                            args.push(String::from_str("HEAD"));
                            assert(strings_view(args@) =~= push_args(*c));
                            RunStep::Request {
                                stage: RunStage::AwaitPush,
                                command: GitCommand::Git(args),
                            }
                        } else {
                            RunStep::Done(Ok(WritebackOutcome::Committed { pushed: false }))
                        }
                    },
                },
            },
        }
    }

    /// The write-back of one contribution: only the paths with a `_users`
    /// segment are staged and committed with `message`; see [`step_ok`] for
    /// the order of the commands. `reply` answers the last requested
    /// command (none is needed at `Start`).
    pub fn run(&self, paths: &[String], message: &str, stage: RunStage, reply: Option<Result<
        GitOutput,
        String,
    >>) -> (r: RunStep)
        requires
            stage == RunStage::Start || stage == RunStage::AwaitPush || reply is Some,
        ensures
            step_ok(self.config_view(), user_paths(strings_view(paths@)), message@, stage, reply, r),
    {
        let staged = filter_user_paths(paths);
        self.step(staged.as_slice(), message, stage, reply)
    }

    /// Like [`Writeback::run`], for curated paths: every path given is
    /// staged.
    pub fn commit_paths(&self, paths: &[String], message: &str, stage: RunStage, reply: Option<
        Result<GitOutput, String>,
    >) -> (r: RunStep)
        requires
            stage == RunStage::Start || stage == RunStage::AwaitPush || reply is Some,
        ensures
            step_ok(self.config_view(), strings_view(paths@), message@, stage, reply, r),
    {
        self.step(paths, message, stage, reply)
    }
}

/// `c` with ASCII capitals lowered, as `to_ascii_lowercase` does.
pub open spec fn ascii_lower(c: char) -> char {
    if 'A' <= c && c <= 'Z' {
        ((c as u32) + 32) as char
    } else {
        c
    }
}

/// Whether a setting's value means "on": `1`, `true`, `on` or `yes`, in any
/// ASCII case, around blanks.
pub open spec fn truthy(v: Seq<char>) -> bool {
    let t = trim(v).map_values(|c: char| ascii_lower(c));
    t == "1"@ || t == "true"@ || t == "on"@ || t == "yes"@
}

/// Whether a setting's value means "on" (see [`truthy`]).
pub fn is_truthy(v: &str) -> (r: bool)
    ensures
        r == truthy(v@),
{
    let t = trim_chars(str_chars(v).as_slice());
    let mut low: Vec<char> = Vec::new();
    let mut i: usize = 0;
    while i < t.len()
        invariant
            i <= t@.len(),
            low@ == t@.take(i as int).map_values(|c: char| ascii_lower(c)),
        decreases t@.len() - i,
    {
        let c = t[i];
        let l = if 'A' <= c && c <= 'Z' {
            char_from_u32_lower(c)
        } else {
            c
        };
        low.push(l);
        proof {
            assert(t@.take(i + 1) =~= t@.take(i as int).push(c));
            assert(low@ =~= t@.take(i + 1).map_values(|c: char| ascii_lower(c)));
        }
        i = i + 1;
    }
    proof {
        assert(t@.take(t@.len() as int) =~= t@);
    }
    let s = string_of(low.as_slice());
    str_eq(s.as_str(), "1") || str_eq(s.as_str(), "true") || str_eq(s.as_str(), "on") || str_eq(
        s.as_str(),
        "yes",
    )
}

fn char_from_u32_lower(c: char) -> (r: char)
    requires
        'A' <= c && c <= 'Z',
    ensures
        r == ascii_lower(c),
{
    let u = c as u32 + 32;
    let r = u as u8 as char;
    assert(r == ((c as u32) + 32) as char);
    r
}

} // verus!
