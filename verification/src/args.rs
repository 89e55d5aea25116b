//! The command surface: the two subcommands and their parsing from a raw
//! argument list.

use vstd::prelude::*;

use crate::errors::LionError;
use crate::text::{range_eq, str_eq};

verus! {

/// The main (root) command.
#[derive(Clone, Debug, PartialEq)]
pub enum RootCommand {
    /// Initializes a new project with a basic config file.
    New { name: String },
    /// Compiles the project in the current working directory.
    Build,
}

/// The main app args.
#[derive(Clone, Debug, PartialEq)]
pub struct Args {
    pub command: RootCommand,
}

/// A `build` invocation: the program name and the one subcommand word.
pub open spec fn is_build_args(a: Seq<Seq<char>>) -> bool {
    a.len() == 2 && a[1] == "build"@
}

/// A `new <name>` invocation: the program name, the subcommand word and
/// the project name.
pub open spec fn is_new_args(a: Seq<Seq<char>>) -> bool {
    a.len() == 3 && a[1] == "new"@
}

impl Args {
    /// Parses a raw argument list (program name first) into [`Args`]:
    /// `build` selects a build, `new <name>` selects project creation, and
    /// everything else is rejected.
    pub fn try_parse_from(args: &Vec<String>) -> (r: Result<Args, LionError>)
        ensures
            match r {
                Ok(parsed) => {
                    let a = args.deep_view();
                    (is_build_args(a) && parsed.command is Build) || (is_new_args(a)
                        && (parsed.command matches RootCommand::New { name } && name@ == a[2]))
                },
                Err(e) => !is_build_args(args.deep_view()) && !is_new_args(args.deep_view())
                    && e is ParseError,
            },
    {
        if args.len() == 2 {
            if str_eq(args[1].as_str(), "build") {
                proof {
                    assert(args.deep_view()[1] == args@[1]@);
                }
                return Ok(Args { command: RootCommand::Build });
            }
        } else if args.len() == 3 {
            if str_eq(args[1].as_str(), "new") {
                proof {
                    assert(args.deep_view()[1] == args@[1]@);
                    assert(args.deep_view()[2] == args@[2]@);
                }
                return Ok(Args { command: RootCommand::New { name: args[2].clone() } });
            }
        }
        proof {
            if args.deep_view().len() == 2 {
                assert(args.deep_view()[1] == args@[1]@);
            }
            if args.deep_view().len() == 3 {
                assert(args.deep_view()[1] == args@[1]@);
            }
        }
        Err(LionError::ParseError("expected `new <name>` or `build`".to_owned()))
    }
}

} // verus!
