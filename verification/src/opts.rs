//! What the operator asked for: the command to run and the global options.

use vstd::prelude::*;

use crate::commit_list::{CommitInput, CommitInputV};

verus! {

/// The command the program will run along with global options.
#[derive(Debug)]
pub struct Options {
    pub cmd: Command,
    pub global: GlobalOptions,
}

/// The command the program will run.
#[derive(Debug)]
pub enum Command {
    ListCommits,
    IngestCommit(CommitInput),
    IngestCommitList { file: String },
    ResolveCommits,
    RunAll,
    CatchUp,
    FillGaps,
    DumpResults,
    Plot { file: String, no_labels: bool },
    Bisect,
}

/// Options every command shares: where the store lives, where the
/// repository is, and where the project to build is when it is not the
/// repository root.
#[derive(Debug)]
pub struct GlobalOptions {
    pub db_file: String,
    pub repo_path: String,
    pub project_path: Option<String>,
}

/// A command, read as the texts it carries.
pub ghost enum CommandV {
    ListCommits,
    IngestCommit(CommitInputV),
    IngestCommitList { file: Seq<char> },
    ResolveCommits,
    RunAll,
    CatchUp,
    FillGaps,
    DumpResults,
    Plot { file: Seq<char>, no_labels: bool },
    Bisect,
}

/// The global options, read as their texts.
pub ghost struct GlobalOptionsV {
    pub db_file: Seq<char>,
    pub repo_path: Seq<char>,
    pub project_path: Option<Seq<char>>,
}

/// The full invocation, read as its texts.
pub ghost struct OptionsV {
    pub cmd: CommandV,
    pub global: GlobalOptionsV,
}

impl View for Command {
    type V = CommandV;

    open spec fn view(&self) -> CommandV {
        match self {
            Command::ListCommits => CommandV::ListCommits,
            Command::IngestCommit(ci) => CommandV::IngestCommit(ci@),
            Command::IngestCommitList { file } => CommandV::IngestCommitList { file: file@ },
            Command::ResolveCommits => CommandV::ResolveCommits,
            Command::RunAll => CommandV::RunAll,
            Command::CatchUp => CommandV::CatchUp,
            Command::FillGaps => CommandV::FillGaps,
            Command::DumpResults => CommandV::DumpResults,
            Command::Plot { file, no_labels } => CommandV::Plot {
                file: file@,
                no_labels: *no_labels,
            },
            Command::Bisect => CommandV::Bisect,
        }
    }
}

impl View for GlobalOptions {
    type V = GlobalOptionsV;

    open spec fn view(&self) -> GlobalOptionsV {
        GlobalOptionsV {
            db_file: self.db_file@,
            repo_path: self.repo_path@,
            project_path: match self.project_path {
                Some(p) => Some(p@),
                None => None,
            },
        }
    }
}

impl View for Options {
    type V = OptionsV;

    open spec fn view(&self) -> OptionsV {
        OptionsV { cmd: self.cmd@, global: self.global@ }
    }
}

impl GlobalOptions {
    /// The path of the project to build: the stated project path, or the
    /// repository path when none is given.
    pub fn project_path(&self) -> (r: &str)
        ensures
            match self.project_path {
                Some(p) => r@ == p@,
                None => r@ == self.repo_path@,
            },
    {
        match &self.project_path {
            Some(p) => p.as_str(),
            None => self.repo_path.as_str(),
        }
    }
}

} // verus!
