//! The command line, parsed: global flags, then a subcommand and its
//! arguments.

use vstd::prelude::*;

use crate::commit_id::{self, valid_commit_id, CommitId};
use crate::commit_list::{CommitInput, CommitInputV};
use crate::opts::{Command, CommandV, GlobalOptions, GlobalOptionsV, Options, OptionsV};
use crate::strutil::{str_eq, trim_spec};

verus! {

/// Why the command line was rejected.
#[derive(Debug)]
pub enum Error {
    /// No subcommand was given.
    MissingCommand,
    /// The subcommand is not one of the known commands.
    UnknownCommand,
    /// A flag that takes a value stands last.
    MissingValue,
    /// An argument stands where none is expected.
    UnexpectedArgument,
    /// The commit identifier given to `ingest-commit` is malformed.
    CommitId(commit_id::Error),
}

/// The shape of a command line error, without its payload.
pub ghost enum ErrorKind {
    MissingCommand,
    UnknownCommand,
    MissingValue,
    UnexpectedArgument,
    BadCommitId,
}

/// The shape of a command line error.
pub open spec fn error_kind(e: Error) -> ErrorKind {
    match e {
        Error::MissingCommand => ErrorKind::MissingCommand,
        Error::UnknownCommand => ErrorKind::UnknownCommand,
        Error::MissingValue => ErrorKind::MissingValue,
        Error::UnexpectedArgument => ErrorKind::UnexpectedArgument,
        Error::CommitId(_) => ErrorKind::BadCommitId,
    }
}

/// The global options before any flag is given.
pub open spec fn default_globals() -> GlobalOptionsV {
    GlobalOptionsV { db_file: "maptime.json"@, repo_path: "."@, project_path: None }
}

/// Consume leading global flags; what remains opens with the subcommand.
pub open spec fn parse_globals_spec(args: Seq<Seq<char>>, g: GlobalOptionsV) -> Result<
    (GlobalOptionsV, Seq<Seq<char>>),
    ErrorKind,
>
    decreases args.len(),
{
    if args.len() == 0 {
        Err(ErrorKind::MissingCommand)
    } else if args[0] == "--db-file"@ {
        if args.len() < 2 {
            Err(ErrorKind::MissingValue)
        } else {
            parse_globals_spec(
                args.subrange(2, args.len() as int),
                GlobalOptionsV { db_file: args[1], ..g },
            )
        }
    } else if args[0] == "--repo-path"@ {
        if args.len() < 2 {
            Err(ErrorKind::MissingValue)
        } else {
            parse_globals_spec(
                args.subrange(2, args.len() as int),
                GlobalOptionsV { repo_path: args[1], ..g },
            )
        }
    } else if args[0] == "--project-path"@ {
        if args.len() < 2 {
            Err(ErrorKind::MissingValue)
        } else {
            parse_globals_spec(
                args.subrange(2, args.len() as int),
                GlobalOptionsV { project_path: Some(args[1]), ..g },
            )
        }
    } else {
        Ok((g, args))
    }
}

/// A subcommand that takes no arguments.
pub open spec fn fixed_cmd_spec(pos: Seq<Seq<char>>, c: CommandV, g: GlobalOptionsV) -> Result<
    OptionsV,
    ErrorKind,
> {
    if pos.len() == 0 {
        Ok(OptionsV { cmd: c, global: g })
    } else {
        Err(ErrorKind::UnexpectedArgument)
    }
}

/// Consume the plot flags.
pub open spec fn parse_plot_spec(
    pos: Seq<Seq<char>>,
    file: Seq<char>,
    no_labels: bool,
    g: GlobalOptionsV,
) -> Result<OptionsV, ErrorKind>
    decreases pos.len(),
{
    if pos.len() == 0 {
        Ok(OptionsV { cmd: CommandV::Plot { file, no_labels }, global: g })
    } else if pos[0] == "--file"@ {
        if pos.len() < 2 {
            Err(ErrorKind::MissingValue)
        } else {
            parse_plot_spec(pos.subrange(2, pos.len() as int), pos[1], no_labels, g)
        }
    } else if pos[0] == "--no-labels"@ {
        parse_plot_spec(pos.drop_first(), file, true, g)
    } else {
        Err(ErrorKind::UnexpectedArgument)
    }
}

/// Parse the subcommand and its arguments.
pub open spec fn parse_cmd_spec(rest: Seq<Seq<char>>, g: GlobalOptionsV) -> Result<
    OptionsV,
    ErrorKind,
> {
    if rest.len() == 0 {
        Err(ErrorKind::MissingCommand)
    } else {
        let t = rest[0];
        let pos = rest.drop_first();
        if t == "list-commits"@ {
            fixed_cmd_spec(pos, CommandV::ListCommits, g)
        } else if t == "ingest-commit"@ {
            if pos.len() == 0 {
                Err(ErrorKind::MissingValue)
            } else if !valid_commit_id(trim_spec(pos[0])) {
                Err(ErrorKind::BadCommitId)
            } else if pos.len() > 2 {
                Err(ErrorKind::UnexpectedArgument)
            } else {
                Ok(
                    OptionsV {
                        cmd: CommandV::IngestCommit(
                            CommitInputV {
                                id: trim_spec(pos[0]),
                                note: if pos.len() == 2 {
                                    Some(pos[1])
                                } else {
                                    None
                                },
                            },
                        ),
                        global: g,
                    },
                )
            }
        } else if t == "ingest-commit-list"@ {
            if pos.len() == 0 {
                Err(ErrorKind::MissingValue)
            } else if pos.len() > 1 {
                Err(ErrorKind::UnexpectedArgument)
            } else {
                Ok(OptionsV { cmd: CommandV::IngestCommitList { file: pos[0] }, global: g })
            }
        } else if t == "resolve-commits"@ {
            fixed_cmd_spec(pos, CommandV::ResolveCommits, g)
        } else if t == "run-all"@ {
            fixed_cmd_spec(pos, CommandV::RunAll, g)
        } else if t == "catch-up"@ {
            fixed_cmd_spec(pos, CommandV::CatchUp, g)
        } else if t == "fill-gaps"@ {
            fixed_cmd_spec(pos, CommandV::FillGaps, g)
        } else if t == "dump-results"@ {
            fixed_cmd_spec(pos, CommandV::DumpResults, g)
        } else if t == "plot"@ {
            parse_plot_spec(pos, "maptime.svg"@, false, g)
        } else if t == "bisect"@ {
            fixed_cmd_spec(pos, CommandV::Bisect, g)
        } else {
            Err(ErrorKind::UnknownCommand)
        }
    }
}

/// What the command line denotes: leading global flags, a subcommand, and
/// its arguments.
pub open spec fn parse_args_spec(args: Seq<Seq<char>>) -> Result<OptionsV, ErrorKind> {
    match parse_globals_spec(args, default_globals()) {
        Err(k) => Err(k),
        Ok((g, rest)) => parse_cmd_spec(rest, g),
    }
}

/// A subcommand that takes no arguments, checked.
fn fixed_cmd(args: &Vec<String>, j: usize, cmd: Command, global: GlobalOptions) -> (r: Result<
    Options,
    Error,
>)
    requires
        j <= args@.len(),
    ensures
        match r {
            Ok(o) => fixed_cmd_spec(
                args.deep_view().subrange(j as int, args.deep_view().len() as int),
                cmd@,
                global@,
            ) == Ok::<OptionsV, ErrorKind>(o@),
            Err(e) => fixed_cmd_spec(
                args.deep_view().subrange(j as int, args.deep_view().len() as int),
                cmd@,
                global@,
            ) == Err::<OptionsV, ErrorKind>(error_kind(e)),
        },
{
    if j < args.len() {
        Err(Error::UnexpectedArgument)
    } else {
        Ok(Options { cmd, global })
    }
}

/// Parse the command line, given without the program name: global flags
/// (`--db-file`, `--repo-path`, `--project-path`, each with a value, later
/// occurrences winning), then the subcommand and its arguments.
pub fn parse_command_line_options(args: Vec<String>) -> (r: Result<Options, Error>)
    ensures
        match r {
            Ok(o) => parse_args_spec(args.deep_view()) == Ok::<OptionsV, ErrorKind>(o@),
            Err(e) => parse_args_spec(args.deep_view()) == Err::<OptionsV, ErrorKind>(
                error_kind(e),
            ),
        },
{
    let ghost av = args.deep_view();
    let n = args.len();
    let mut global = GlobalOptions {
        db_file: String::from_str("maptime.json"),
        repo_path: String::from_str("."),
        project_path: None,
    };
    let mut i: usize = 0;
    proof {
        assert(av.subrange(0, av.len() as int) =~= av);
        assert(global@ == default_globals());
    }
    loop
        invariant
            0 <= i <= n,
            n == av.len(),
            av == args.deep_view(),
            parse_globals_spec(av, default_globals()) == parse_globals_spec(
                av.subrange(i as int, av.len() as int),
                global@,
            ),
        ensures
            0 <= i < n,
            n == av.len(),
            av == args.deep_view(),
            parse_args_spec(av) == parse_cmd_spec(av.subrange(i as int, av.len() as int), global@),
        decreases n - i,
    {
        if i >= n {
            return Err(Error::MissingCommand);
        }
        let ghost rest = av.subrange(i as int, av.len() as int);
        proof {
            assert(rest[0] == av[i as int]);
        }
        if str_eq(args[i].as_str(), "--db-file") {
            if i + 1 >= n {
                return Err(Error::MissingValue);
            }
            global.db_file = args[i + 1].clone();
            proof {
                assert(rest.subrange(2, rest.len() as int) =~= av.subrange(
                    i + 2,
                    av.len() as int,
                ));
                assert(rest[1] == av[i + 1]);
            }
            i = i + 2;
        } else if str_eq(args[i].as_str(), "--repo-path") {
            if i + 1 >= n {
                return Err(Error::MissingValue);
            }
            global.repo_path = args[i + 1].clone();
            proof {
                assert(rest.subrange(2, rest.len() as int) =~= av.subrange(
                    i + 2,
                    av.len() as int,
                ));
                assert(rest[1] == av[i + 1]);
            }
            i = i + 2;
        } else if str_eq(args[i].as_str(), "--project-path") {
            if i + 1 >= n {
                return Err(Error::MissingValue);
            }
            global.project_path = Some(args[i + 1].clone());
            proof {
                assert(rest.subrange(2, rest.len() as int) =~= av.subrange(
                    i + 2,
                    av.len() as int,
                ));
                assert(rest[1] == av[i + 1]);
            }
            i = i + 2;
        } else {
            break ;
        }
    }
    // the subcommand opens at position i
    let ghost rest = av.subrange(i as int, av.len() as int);
    proof {
        assert(rest[0] == av[i as int]);
        assert(rest.drop_first() =~= av.subrange(i + 1, av.len() as int));
    }
    let t = args[i].as_str();
    let j = i + 1;
    if str_eq(t, "list-commits") {
        fixed_cmd(&args, j, Command::ListCommits, global)
    } else if str_eq(t, "ingest-commit") {
        if j >= n {
            return Err(Error::MissingValue);
        }
        proof {
            assert(rest.drop_first()[0] == av[j as int]);
        }
        match CommitId::from_str(args[j].as_str()) {
            Err(e) => Err(Error::CommitId(e)),
            Ok(id) => {
                if n - j > 2 {
                    Err(Error::UnexpectedArgument)
                } else {
                    let note = if n - j == 2 {
                        proof {
                            assert(rest.drop_first()[1] == av[j + 1]);
                        }
                        Some(args[j + 1].clone())
                    } else {
                        None
                    };
                    Ok(
                        Options {
                            cmd: Command::IngestCommit(CommitInput { id, note }),
                            global,
                        },
                    )
                }
            },
        }
    } else if str_eq(t, "ingest-commit-list") {
        if j >= n {
            Err(Error::MissingValue)
        } else if n - j > 1 {
            Err(Error::UnexpectedArgument)
        } else {
            proof {
                assert(rest.drop_first()[0] == av[j as int]);
            }
            Ok(
                Options {
                    cmd: Command::IngestCommitList { file: args[j].clone() },
                    global,
                },
            )
        }
    } else if str_eq(t, "resolve-commits") {
        fixed_cmd(&args, j, Command::ResolveCommits, global)
    } else if str_eq(t, "run-all") {
        fixed_cmd(&args, j, Command::RunAll, global)
    } else if str_eq(t, "catch-up") {
        fixed_cmd(&args, j, Command::CatchUp, global)
    } else if str_eq(t, "fill-gaps") {
        fixed_cmd(&args, j, Command::FillGaps, global)
    } else if str_eq(t, "dump-results") {
        fixed_cmd(&args, j, Command::DumpResults, global)
    } else if str_eq(t, "plot") {
        let mut file = String::from_str("maptime.svg");
        let mut no_labels = false;
        let mut p: usize = j;
        proof {
            assert(parse_args_spec(av) == parse_plot_spec(
                av.subrange(j as int, av.len() as int),
                "maptime.svg"@,
                false,
                global@,
            ));
        }
        loop
            invariant
                j <= p <= n,
                n == av.len(),
                av == args.deep_view(),
                parse_args_spec(av) == parse_plot_spec(
                    av.subrange(p as int, av.len() as int),
                    file@,
                    no_labels,
                    global@,
                ),
            decreases n - p,
        {
            if p >= n {
                proof {
                    assert(av.subrange(p as int, av.len() as int).len() == 0);
                }
                return Ok(Options { cmd: Command::Plot { file, no_labels }, global });
            }
            let ghost prest = av.subrange(p as int, av.len() as int);
            proof {
                assert(prest[0] == av[p as int]);
            }
            if str_eq(args[p].as_str(), "--file") {
                if p + 1 >= n {
                    return Err(Error::MissingValue);
                }
                file = args[p + 1].clone();
                proof {
                    assert(prest.subrange(2, prest.len() as int) =~= av.subrange(
                        p + 2,
                        av.len() as int,
                    ));
                    assert(prest[1] == av[p + 1]);
                }
                p = p + 2;
            } else if str_eq(args[p].as_str(), "--no-labels") {
                no_labels = true;
                proof {
                    assert(prest.drop_first() =~= av.subrange(p + 1, av.len() as int));
                }
                p = p + 1;
            } else {
                return Err(Error::UnexpectedArgument);
            }
        }
    } else if str_eq(t, "bisect") {
        fixed_cmd(&args, j, Command::Bisect, global)
    } else {
        Err(Error::UnknownCommand)
    }
}

} // verus!
