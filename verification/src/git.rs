//! What to ask of git before and after new versions are written, and what
//! to make of its answers.

use crate::error::{Error, Result};
use crate::globs::{glob_accepts, glob_allows, glob_fits, glob_matches, plain};
use crate::lines::{join, join_lines, texts};
use crate::package::WorkspaceConfig;
use crate::tables::VersionMap;
use crate::text::{contains, replace, replaced, str_contains, str_eq};
use crate::version::{version_text, Version, VersionView};
use vstd::prelude::*;
use vstd::string::StringExecFns;

verus! {

/// How the versions are committed, tagged and pushed.
#[derive(Debug)]
pub struct GitOpt {
    /// Do not commit version changes.
    pub no_git_commit: bool,
    /// The branches that versions may be made on; `master` if not given.
    pub allow_branch: Option<String>,
    /// Amend the last commit instead of making a new one.
    pub amend: bool,
    /// The commit message; `%v` stands for the new version.
    pub message: Option<String>,
    /// Do not tag the commit.
    pub no_git_tag: bool,
    /// Do not tag the versions of single packages.
    pub no_individual_tags: bool,
    /// Do not tag the version of the workspace.
    pub no_global_tag: bool,
    /// What tags begin with.
    pub tag_prefix: String,
    /// What tags of single packages begin with; `%n` stands for the name.
    pub individual_tag_prefix: String,
    /// Do not push the commit and the tags.
    pub no_git_push: bool,
    /// The remote to push to.
    pub git_remote: String,
}

/// The answer of git that is awaited.
#[derive(Debug)]
pub enum Check {
    /// The number of commits in the repository.
    Repository,
    /// The name of the branch that is checked out.
    Branch,
    /// The reference of the branch on the remote.
    Remote(String),
    /// The update of the remotes.
    Update(String),
    /// The number of commits that the branch is behind its upstream.
    Behind(String),
}

/// What to do next.
#[derive(Debug)]
pub enum Action {
    /// Run git with these arguments, and come back with what it printed.
    Run(Vec<String>, Check),
    /// Nothing more: the branch to commit on, if there is to be a commit.
    Done(Option<String>),
}

/// The text of an optional string, or `fallback`.
pub open spec fn text_or(s: Option<String>, fallback: Seq<char>) -> Seq<char> {
    match s {
        Some(t) => t@,
        None => fallback,
    }
}

/// Whether the action is to run git with `args`.
pub open spec fn runs(action: Action, args: Seq<Seq<char>>) -> bool {
    action is Run && texts(action->Run_0@) == args
}

impl GitOpt {
    /// The pattern of the branches that versions may be made on: the one
    /// given here, else that of the workspace, else `master`.
    pub open spec fn allowed(&self, config: &WorkspaceConfig) -> Seq<char> {
        match self.allow_branch {
            Some(p) => p@,
            None => text_or(config.allow_branch, "master"@),
        }
    }

    /// The branch on the remote: the remote, a slash and `branch`.
    pub open spec fn upstream(&self, branch: Seq<char>) -> Seq<char> {
        self.git_remote@ + "/"@ + branch
    }

    /// The name under which `branch` is held against the pattern: `main`
    /// counts as `master` where the pattern is `master`.
    pub open spec fn tested(&self, branch: Seq<char>, config: &WorkspaceConfig) -> Seq<char> {
        if branch == "main"@ && self.allowed(config) == "master"@ {
            "master"@
        } else {
            branch
        }
    }

    /// The first thing to do when checking the repository: nothing where no
    /// commit is to be made, else to count the commits.
    pub fn validate(&self) -> (r: Action)
        ensures
            self.no_git_commit ==> r is Done && r->Done_0 is None,
            !self.no_git_commit ==> r is Run && r->Run_1 is Repository && texts(r->Run_0@) == seq![
                "rev-list"@,
                "--count"@,
                "--all"@,
                "--max-count=1"@,
            ],
    {
        if self.no_git_commit {
            Action::Done(None)
        } else {
            let args = list4("rev-list", "--count", "--all", "--max-count=1");
            Action::Run(args, Check::Repository)
        }
    }

    /// What to do after git answered `out` and `err` to the check `check`.
    /// Whether the branch is allowed is for the `glob` crate to say; for a
    /// pattern and a branch without a backslash the outcome is the named
    /// one. A pattern that is too long is an error.
    pub fn validated(&self, check: Check, out: &str, err: &str, config: &WorkspaceConfig) -> (r:
        Result<Action>)
        ensures
            match check {
                Check::Repository => {
                    if contains(err@, "not a git repository"@) {
                        r is Err && r->Err_0 is NotGit
                    } else if out@ == "0"@ {
                        r is Err && r->Err_0 is NoCommits
                    } else {
                        r is Ok && r->Ok_0 is Run && r->Ok_0->Run_1 is Branch && texts(
                            r->Ok_0->Run_0@,
                        ) == seq!["rev-parse"@, "--abbrev-ref"@, "HEAD"@]
                    }
                },
                Check::Branch => {
                    if out@ == "HEAD"@ {
                        r is Err && r->Err_0 is NotBranch
                    } else {
                        &&& match r {
                            Ok(action) => if self.no_git_push {
                                action is Done && action->Done_0 is Some
                                    && action->Done_0->Some_0@ == out@
                            } else {
                                action is Run && action->Run_1 is Remote
                                    && action->Run_1->Remote_0@ == out@ && texts(action->Run_0@)
                                    == seq![
                                    "show-ref"@,
                                    "--verify"@,
                                    "refs/remotes/"@ + self.upstream(out@),
                                ]
                            },
                            Err(Error::BranchNotAllowed { branch, pattern }) => branch@ == out@
                                && pattern@ == self.allowed(config),
                            Err(Error::PatternTooLong(pattern)) => pattern@ == self.allowed(
                                config,
                            ),
                            Err(e) => e is GlobPattern,
                        }
                        &&& !glob_fits(self.allowed(config)) <==> r is Err
                            && r->Err_0 is PatternTooLong
                        &&& glob_fits(self.allowed(config)) && plain(self.allowed(config))
                            && plain(self.tested(out@, config)) ==> {
                            &&& r is Ok <==> glob_accepts(self.allowed(config)) && glob_matches(
                                self.allowed(config),
                                self.tested(out@, config),
                            )
                            &&& (r is Err && r->Err_0 is GlobPattern) <==> !glob_accepts(
                                self.allowed(config),
                            )
                        }
                    }
                },
                Check::Remote(branch) => {
                    if out@.len() == 0 {
                        match r {
                            Err(Error::NoRemote { remote, branch: b }) => remote@
                                == self.git_remote@ && b@ == branch@,
                            _ => false,
                        }
                    } else {
                        r is Ok && r->Ok_0 is Run && r->Ok_0->Run_1 is Update
                            && r->Ok_0->Run_1->Update_0@ == branch@ && texts(r->Ok_0->Run_0@)
                            == seq!["remote"@, "update"@]
                    }
                },
                Check::Update(branch) => {
                    r is Ok && r->Ok_0 is Run && r->Ok_0->Run_1 is Behind
                        && r->Ok_0->Run_1->Behind_0@ == branch@ && texts(r->Ok_0->Run_0@) == seq![
                        "rev-list"@,
                        "--left-only"@,
                        "--count"@,
                        self.upstream(branch@) + "..."@ + branch@,
                    ]
                },
                Check::Behind(branch) => {
                    if out@ != "0"@ {
                        match r {
                            Err(Error::BehindRemote { upstream, branch: b }) => b@ == branch@
                                && upstream@ == self.upstream(branch@),
                            _ => false,
                        }
                    } else {
                        r is Ok && r->Ok_0 is Done && r->Ok_0->Done_0 is Some
                            && r->Ok_0->Done_0->Some_0@ == branch@
                    }
                },
            },
    {
        match check {
            Check::Repository => {
                if str_contains(err, "not a git repository") {
                    Err(Error::NotGit)
                } else if str_eq(out, "0") {
                    Err(Error::NoCommits)
                } else {
                    let mut args: Vec<String> = Vec::new();
                    args.push(String::from_str("rev-parse"));
                    args.push(String::from_str("--abbrev-ref"));
                    args.push(String::from_str("HEAD"));
                    assert(texts(args@) =~= seq!["rev-parse"@, "--abbrev-ref"@, "HEAD"@]);
                    Ok(Action::Run(args, Check::Branch))
                }
            },
            Check::Branch => {
                if str_eq(out, "HEAD") {
                    return Err(Error::NotBranch);
                }
                let pattern = match &self.allow_branch {
                    Some(p) => p.clone(),
                    None => match &config.allow_branch {
                        Some(p) => p.clone(),
                        None => String::from_str("master"),
                    },
                };
                let test_branch = if str_eq(out, "main") && str_eq(pattern.as_str(), "master") {
                    String::from_str("master")
                } else {
                    String::from_str(out)
                };
                match glob_allows(pattern.as_str(), test_branch.as_str()) {
                    Err(e) => Err(e),
                    Ok(false) => Err(
                        Error::BranchNotAllowed { branch: String::from_str(out), pattern },
                    ),
                    Ok(true) => {
                        if self.no_git_push {
                            Ok(Action::Done(Some(String::from_str(out))))
                        } else {
                            let mut reference = String::from_str("refs/remotes/");
                            reference.append(self.remote_branch(out).as_str());
                            let mut args: Vec<String> = Vec::new();
                            args.push(String::from_str("show-ref"));
                            args.push(String::from_str("--verify"));
                            args.push(reference);
                            assert(texts(args@) =~= seq![
                                "show-ref"@,
                                "--verify"@,
                                "refs/remotes/"@ + self.upstream(out@),
                            ]);
                            Ok(Action::Run(args, Check::Remote(String::from_str(out))))
                        }
                    },
                }
            },
            Check::Remote(branch) => {
                if out.unicode_len() == 0 {
                    Err(Error::NoRemote { remote: self.git_remote.clone(), branch })
                } else {
                    let mut args: Vec<String> = Vec::new();
                    args.push(String::from_str("remote"));
                    args.push(String::from_str("update"));
                    assert(texts(args@) =~= seq!["remote"@, "update"@]);
                    Ok(Action::Run(args, Check::Update(branch)))
                }
            },
            Check::Update(branch) => {
                let mut range = self.remote_branch(branch.as_str());
                range.append("...");
                range.append(branch.as_str());
                let mut args: Vec<String> = Vec::new();
                args.push(String::from_str("rev-list"));
                args.push(String::from_str("--left-only"));
                args.push(String::from_str("--count"));
                args.push(range);
                assert(texts(args@) =~= seq![
                    "rev-list"@,
                    "--left-only"@,
                    "--count"@,
                    self.upstream(branch@) + "..."@ + branch@,
                ]);
                Ok(Action::Run(args, Check::Behind(branch)))
            },
            Check::Behind(branch) => {
                if !str_eq(out, "0") {
                    let upstream = self.remote_branch(branch.as_str());
                    Err(Error::BehindRemote { upstream, branch })
                } else {
                    Ok(Action::Done(Some(branch)))
                }
            },
        }
    }

    /// The branch on the remote: the remote, a slash and `branch`.
    pub fn remote_branch(&self, branch: &str) -> (r: String)
        ensures
            r@ == self.upstream(branch@),
    {
        let mut out = self.git_remote.clone();
        out.append("/");
        out.append(branch);
        out
    }
}

/// A list of four texts.
fn list4(a: &str, b: &str, c: &str, d: &str) -> (r: Vec<String>)
    ensures
        texts(r@) == seq![a@, b@, c@, d@],
{
    let mut args: Vec<String> = Vec::new();
    args.push(String::from_str(a));
    args.push(String::from_str(b));
    args.push(String::from_str(c));
    args.push(String::from_str(d));
    assert(texts(args@) =~= seq![a@, b@, c@, d@]);
    args
}

/// What went wrong when a command of git fails.
#[derive(Debug)]
pub enum Failure {
    NotAdded,
    NotCommitted,
    /// The tag that could not be made.
    NotTagged(String),
    NotPushed,
}

/// The mathematical value of a [`Failure`].
pub enum FailureView {
    NotAdded,
    NotCommitted,
    NotTagged(Seq<char>),
    NotPushed,
}

/// A command for git, and what its failure means.
#[derive(Debug)]
pub struct GitCommand {
    pub args: Vec<String>,
    pub failure: Failure,
}

impl View for Failure {
    type V = FailureView;

    open spec fn view(&self) -> FailureView {
        match self {
            Failure::NotAdded => FailureView::NotAdded,
            Failure::NotCommitted => FailureView::NotCommitted,
            Failure::NotTagged(tag) => FailureView::NotTagged(tag@),
            Failure::NotPushed => FailureView::NotPushed,
        }
    }
}

impl View for GitCommand {
    type V = (Seq<Seq<char>>, FailureView);

    open spec fn view(&self) -> (Seq<Seq<char>>, FailureView) {
        (texts(self.args@), self.failure@)
    }
}

/// The values of a list of commands.
pub open spec fn command_views(commands: Seq<GitCommand>) -> Seq<(Seq<Seq<char>>, FailureView)> {
    commands.map_values(|c: GitCommand| c@)
}

/// One line for each new version: the name, `@` and the version.
pub open spec fn release_lines(pairs: Seq<(Seq<char>, VersionView)>) -> Seq<Seq<char>> {
    pairs.map_values(|p: (Seq<char>, VersionView)| p.0 + "@"@ + version_text(p.1))
}

/// The message `msg` with the new versions listed under it.
pub open spec fn commit_text(msg: Seq<char>, pairs: Seq<(Seq<char>, VersionView)>) -> Seq<char> {
    msg + "\n\n"@ + join(release_lines(pairs), "\n"@) + "\n\nGenerated by cargo-workspaces"@
}

/// The command that makes the tag `tag`.
pub open spec fn tag_command(tag: Seq<char>) -> (Seq<Seq<char>>, FailureView) {
    (seq!["tag"@, tag, "-m"@, tag], FailureView::NotTagged(tag))
}

impl GitOpt {
    /// The commit message: the one given, or `Release %v`, with the new
    /// versions listed under it and `%v` replaced by the common version, or
    /// by `independent packages` where there is none.
    pub open spec fn message_text(
        &self,
        new_version: Option<VersionView>,
        pairs: Seq<(Seq<char>, VersionView)>,
    ) -> Seq<char> {
        replaced(
            commit_text(text_or(self.message, "Release %v"@), pairs),
            "%v"@,
            match new_version {
                Some(v) => version_text(v),
                None => "independent packages"@,
            },
        )
    }

    /// The arguments of the commit.
    pub open spec fn commit_arguments(
        &self,
        new_version: Option<VersionView>,
        pairs: Seq<(Seq<char>, VersionView)>,
    ) -> Seq<Seq<char>> {
        if self.amend {
            seq!["commit"@, "--amend"@, "--no-edit"@]
        } else {
            seq!["commit"@, "-m"@, self.message_text(new_version, pairs)]
        }
    }

    /// The tag of the workspace, where one is to be made: the prefix and
    /// the common version.
    pub open spec fn global_tags(&self, new_version: Option<VersionView>) -> Seq<Seq<char>> {
        match new_version {
            Some(v) => if self.no_global_tag {
                seq![]
            } else {
                seq![self.tag_prefix@ + version_text(v)]
            },
            None => seq![],
        }
    }

    /// The tag of one package: the prefix for single packages with the name
    /// in place of `%n`, and the version.
    pub open spec fn individual_tag(&self, pair: (Seq<char>, VersionView)) -> Seq<char> {
        replaced(self.individual_tag_prefix@, "%n"@, pair.0) + version_text(pair.1)
    }

    /// The tags to make: that of the workspace, then those of the packages.
    pub open spec fn tag_names(
        &self,
        new_version: Option<VersionView>,
        pairs: Seq<(Seq<char>, VersionView)>,
        config: &WorkspaceConfig,
    ) -> Seq<Seq<char>> {
        if self.no_git_tag {
            seq![]
        } else {
            self.global_tags(new_version) + (if self.no_individual_tags
                || config.no_individual_tags == Some(true) {
                seq![]
            } else {
                pairs.map_values(|p: (Seq<char>, VersionView)| self.individual_tag(p))
            })
        }
    }

    /// The commands that commit, tag and push the new versions, in order.
    pub open spec fn commands(
        &self,
        new_version: Option<VersionView>,
        pairs: Seq<(Seq<char>, VersionView)>,
        branch: Seq<char>,
        config: &WorkspaceConfig,
    ) -> Seq<(Seq<Seq<char>>, FailureView)> {
        if self.no_git_commit {
            seq![]
        } else {
            seq![
                (seq!["add"@, "-u"@], FailureView::NotAdded),
                (self.commit_arguments(new_version, pairs), FailureView::NotCommitted),
            ] + self.tag_names(new_version, pairs, config).map_values(
                |t: Seq<char>| tag_command(t),
            ) + (if self.no_git_push {
                seq![]
            } else {
                seq![
                    (
                        seq!["push"@, "--follow-tags"@, self.git_remote@, branch],
                        FailureView::NotPushed,
                    ),
                ]
            })
        }
    }

    /// The commit message for the new versions.
    pub fn commit_msg(&self, new_version: &Option<Version>, new_versions: &VersionMap) -> (r:
        String)
        ensures
            r@ == self.message_text(
                crate::planner::optional_view(*new_version),
                new_versions.pairs(),
            ),
    {
        let ghost pairs = new_versions.pairs();
        let mut listed: Vec<String> = Vec::new();
        let mut i: usize = 0;
        assert(texts(listed@) =~= release_lines(pairs).take(0));
        while i < new_versions.len()
            invariant
                i <= pairs.len(),
                pairs == new_versions.pairs(),
                texts(listed@) == release_lines(pairs).take(i as int),
            decreases pairs.len() - i,
        {
            let (name, version) = new_versions.entry(i);
            let mut line = name.clone();
            line.append("@");
            line.append(version.to_string().as_str());
            proof {
                let all = release_lines(pairs);
                assert(all[i as int] == pairs[i as int].0 + "@"@ + version_text(pairs[i as int].1));
                assert(line@ =~= all[i as int]);
                assert(texts(listed@.push(line)) =~= texts(listed@).push(line@));
                assert(all.take(i + 1) =~= all.take(i as int).push(all[i as int]));
            }
            listed.push(line);
            i += 1;
        }
        assert(release_lines(pairs).take(pairs.len() as int) =~= release_lines(pairs));
        let mut text = match &self.message {
            Some(m) => m.clone(),
            None => String::from_str("Release %v"),
        };
        text.append("\n\n");
        text.append(join_lines(&listed, "\n").as_str());
        text.append("\n\nGenerated by cargo-workspaces");
        let version = match new_version {
            Some(v) => v.to_string(),
            None => String::from_str("independent packages"),
        };
        replace(text.as_str(), "%v", version.as_str())
    }

    /// The tags to make for the new versions.
    pub fn tags(
        &self,
        new_version: &Option<Version>,
        new_versions: &VersionMap,
        config: &WorkspaceConfig,
    ) -> (r: Vec<String>)
        ensures
            texts(r@) == self.tag_names(
                crate::planner::optional_view(*new_version),
                new_versions.pairs(),
                config,
            ),
    {
        let ghost pairs = new_versions.pairs();
        let mut out: Vec<String> = Vec::new();
        if self.no_git_tag {
            assert(texts(out@) =~= Seq::<Seq<char>>::empty());
            return out;
        }
        if !self.no_global_tag {
            if let Some(version) = new_version {
                let mut tag = self.tag_prefix.clone();
                tag.append(version.to_string().as_str());
                out.push(tag);
            }
        }
        let ghost first = texts(out@);
        assert(first =~= self.global_tags(crate::planner::optional_view(*new_version)));
        let skip = self.no_individual_tags || match config.no_individual_tags {
            Some(b) => b,
            None => false,
        };
        if skip {
            assert(first + Seq::<Seq<char>>::empty() =~= first);
            return out;
        }
        let ghost each = pairs.map_values(|p: (Seq<char>, VersionView)| self.individual_tag(p));
        let mut i: usize = 0;
        assert(first + each.take(0) =~= first);
        while i < new_versions.len()
            invariant
                i <= pairs.len(),
                pairs == new_versions.pairs(),
                each == pairs.map_values(|p: (Seq<char>, VersionView)| self.individual_tag(p)),
                texts(out@) == first + each.take(i as int),
            decreases pairs.len() - i,
        {
            let (name, version) = new_versions.entry(i);
            let mut tag = replace(self.individual_tag_prefix.as_str(), "%n", name.as_str());
            tag.append(version.to_string().as_str());
            proof {
                assert(each[i as int] == self.individual_tag(pairs[i as int]));
                assert(tag@ =~= each[i as int]);
                assert(texts(out@.push(tag)) =~= texts(out@).push(tag@));
                assert(each.take(i + 1) =~= each.take(i as int).push(each[i as int]));
                assert(texts(out@).push(tag@) =~= first + each.take(i + 1));
            }
            out.push(tag);
            i += 1;
        }
        assert(each.take(pairs.len() as int) =~= each);
        out
    }

    /// The commands that commit, tag and push the new versions on `branch`,
    /// in the order in which to run them. The first one that fails ends
    /// the run, with the error that [`failed`] makes of it.
    pub fn commit(
        &self,
        new_version: &Option<Version>,
        new_versions: &VersionMap,
        branch: &str,
        config: &WorkspaceConfig,
    ) -> (r: Vec<GitCommand>)
        ensures
            command_views(r@) == self.commands(
                crate::planner::optional_view(*new_version),
                new_versions.pairs(),
                branch@,
                config,
            ),
    {
        let ghost version = crate::planner::optional_view(*new_version);
        let ghost pairs = new_versions.pairs();
        let mut out: Vec<GitCommand> = Vec::new();
        if self.no_git_commit {
            assert(command_views(out@) =~= Seq::<(Seq<Seq<char>>, FailureView)>::empty());
            return out;
        }
        let mut add: Vec<String> = Vec::new();
        add.push(String::from_str("add"));
        add.push(String::from_str("-u"));
        assert(texts(add@) =~= seq!["add"@, "-u"@]);
        out.push(GitCommand { args: add, failure: Failure::NotAdded });
        let mut args: Vec<String> = Vec::new();
        args.push(String::from_str("commit"));
        if self.amend {
            args.push(String::from_str("--amend"));
            args.push(String::from_str("--no-edit"));
        } else {
            args.push(String::from_str("-m"));
            args.push(self.commit_msg(new_version, new_versions));
        }
        assert(texts(args@) =~= self.commit_arguments(version, pairs));
        out.push(GitCommand { args, failure: Failure::NotCommitted });
        let ghost head = command_views(out@);
        assert(head =~= seq![
            (seq!["add"@, "-u"@], FailureView::NotAdded),
            (self.commit_arguments(version, pairs), FailureView::NotCommitted),
        ]);
        let names = self.tags(new_version, new_versions, config);
        let ghost made = texts(names@).map_values(|t: Seq<char>| tag_command(t));
        let mut i: usize = 0;
        assert(head + made.take(0) =~= head);
        while i < names.len()
            invariant
                i <= names.len(),
                made == texts(names@).map_values(|t: Seq<char>| tag_command(t)),
                command_views(out@) == head + made.take(i as int),
            decreases names.len() - i,
        {
            let tag = &names[i];
            let mut args: Vec<String> = Vec::new();
            args.push(String::from_str("tag"));
            args.push(tag.clone());
            args.push(String::from_str("-m"));
            args.push(tag.clone());
            assert(texts(args@) =~= seq!["tag"@, tag@, "-m"@, tag@]);
            let command = GitCommand { args, failure: Failure::NotTagged(tag.clone()) };
            proof {
                assert(made[i as int] == tag_command(tag@));
                assert(command@ == made[i as int]);
                assert(command_views(out@.push(command)) =~= command_views(out@).push(command@));
                assert(made.take(i + 1) =~= made.take(i as int).push(made[i as int]));
                assert(command_views(out@).push(command@) =~= head + made.take(i + 1));
            }
            out.push(command);
            i += 1;
        }
        assert(made.take(names@.len() as int) =~= made);
        let ghost tagged = command_views(out@);
        if !self.no_git_push {
            let mut args: Vec<String> = Vec::new();
            args.push(String::from_str("push"));
            args.push(String::from_str("--follow-tags"));
            args.push(self.git_remote.clone());
            args.push(String::from_str(branch));
            assert(texts(args@) =~= seq!["push"@, "--follow-tags"@, self.git_remote@, branch@]);
            let command = GitCommand { args, failure: Failure::NotPushed };
            proof {
                assert(command_views(out@.push(command)) =~= tagged + seq![command@]);
            }
            out.push(command);
        } else {
            assert(tagged + Seq::<(Seq<Seq<char>>, FailureView)>::empty() =~= tagged);
        }
        out
    }
}

/// The error for a command of git that failed, having printed `out` and
/// `err`.
pub fn failed(failure: Failure, out: String, err: String) -> (r: Error)
    ensures
        match failure {
            Failure::NotAdded => r == Error::NotAdded(out, err),
            Failure::NotCommitted => r == Error::NotCommitted(out, err),
            Failure::NotTagged(tag) => r == Error::NotTagged(tag, out, err),
            Failure::NotPushed => r == Error::NotPushed(out, err),
        },
{
    match failure {
        Failure::NotAdded => Error::NotAdded(out, err),
        Failure::NotCommitted => Error::NotCommitted(out, err),
        Failure::NotTagged(tag) => Error::NotTagged(tag, out, err),
        Failure::NotPushed => Error::NotPushed(out, err),
    }
}

} // verus!
