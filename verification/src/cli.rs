//! The command line of the receiver side.
use crate::scan::same_text;
use crate::text::chars_of;
use vstd::prelude::*;

verus! {

/// What the command line asks for.
#[derive(Debug, PartialEq, Eq)]
pub enum Cli {
    /// Run, with the configuration of this file if one is given.
    Run { config_path: Option<String> },
    /// Write the default configuration to this file.
    WriteDefault { path: String },
    Help,
    /// An argument that is not known.
    Unknown { arg: String },
}

/// Mathematical value of a [`Cli`].
pub enum CliView {
    Run { config_path: Option<Seq<char>> },
    WriteDefault { path: Seq<char> },
    Help,
    Unknown { arg: Seq<char> },
}

impl View for Cli {
    type V = CliView;

    open spec fn view(&self) -> CliView {
        match *self {
            Cli::Run { config_path } => CliView::Run {
                config_path: crate::meta::text_of(config_path),
            },
            Cli::WriteDefault { path } => CliView::WriteDefault { path: path@ },
            Cli::Help => CliView::Help,
            Cli::Unknown { arg } => CliView::Unknown { arg: arg@ },
        }
    }
}

/// The argument that follows the first.
pub open spec fn value_in(args: Seq<Seq<char>>) -> Option<Seq<char>> {
    if args.len() >= 2 {
        Some(args[1])
    } else {
        None
    }
}

/// What the rest of a command line asks for, with the configuration file that was
/// named so far.
pub open spec fn cli_of(config_path: Option<Seq<char>>, args: Seq<Seq<char>>) -> CliView
    decreases args.len(),
{
    if args.len() == 0 {
        CliView::Run { config_path }
    } else if args[0] == "--config"@ || args[0] == "-c"@ {
        if args.len() == 1 {
            CliView::Run { config_path: None }
        } else {
            cli_of(Some(args[1]), args.skip(2))
        }
    } else if args[0] == "--write-default-config"@ {
        CliView::WriteDefault { path: value_in(args).unwrap_or("flowdmr-sidecar.toml"@) }
    } else if args[0] == "--help"@ || args[0] == "-h"@ {
        CliView::Help
    } else {
        CliView::Unknown { arg: args[0] }
    }
}

/// Reads the command line.
pub fn parse_args(args: &Vec<String>) -> (r: Cli)
    ensures
        r@ == cli_of(None, crate::config::texts(args@)),
{
    let ghost all = crate::config::texts(args@);
    let len: usize = args.len();
    let mut config_path: Option<String> = None;
    let mut i: usize = 0;
    assert(all.skip(0) =~= all);
    while i < len
        invariant
            i <= len,
            len == args@.len(),
            all == crate::config::texts(args@),
            cli_of(crate::meta::text_of(config_path), all.skip(i as int)) == cli_of(None, all),
        decreases len - i,
    {
        let ghost rest = all.skip(i as int);
        assert(rest[0] == args@[i as int]@);
        let cs = chars_of(args[i].as_str());
        let arg = cs.as_slice();
        let last = len - i == 1;
        if !last {
            assert(rest[1] == args@[i + 1]@);
        }
        if same_text(arg, "--config") || same_text(arg, "-c") {
            if last {
                return Cli::Run { config_path: None };
            }
            config_path = Some(args[i + 1].clone());
            assert(rest.skip(2) =~= all.skip(i + 2));
            i = i + 2;
        } else if same_text(arg, "--write-default-config") {
            let path = if last {
                "flowdmr-sidecar.toml".to_string()
            } else {
                args[i + 1].clone()
            };
            return Cli::WriteDefault { path };
        } else if same_text(arg, "--help") || same_text(arg, "-h") {
            return Cli::Help;
        } else {
            return Cli::Unknown { arg: args[i].clone() };
        }
    }
    assert(all.skip(i as int) =~= seq![]);
    Cli::Run { config_path }
}

/// The file named last counts, under either name of the option; one without a name
/// behind it takes the earlier one back.
pub proof fn law_last_file_counts(
    earlier: Option<Seq<char>>,
    path: Seq<char>,
    rest: Seq<Seq<char>>,
)
    ensures
        cli_of(earlier, seq!["--config"@, path] + rest) == cli_of(Some(path), rest),
        cli_of(earlier, seq!["-c"@, path] + rest) == cli_of(Some(path), rest),
        cli_of(earlier, seq!["--config"@]) == (CliView::Run { config_path: None }),
        cli_of(earlier, seq![]) == (CliView::Run { config_path: earlier }),
{
    let a = seq!["--config"@, path] + rest;
    let b = seq!["-c"@, path] + rest;
    assert(a.skip(2) =~= rest);
    assert(b.skip(2) =~= rest);
}

/// Help, and the default configuration, are given as soon as they are asked for, and
/// an argument that is not known is named.
pub proof fn law_first_request_counts(
    earlier: Option<Seq<char>>,
    arg: Seq<char>,
    path: Seq<char>,
    rest: Seq<Seq<char>>,
)
    ensures
        cli_of(earlier, seq!["-h"@] + rest) == CliView::Help,
        cli_of(earlier, seq!["--help"@] + rest) == CliView::Help,
        cli_of(earlier, seq!["--write-default-config"@, path] + rest) == (CliView::WriteDefault {
            path,
        }),
        cli_of(earlier, seq!["--write-default-config"@]) == (CliView::WriteDefault {
            path: "flowdmr-sidecar.toml"@,
        }),
        arg != "-h"@ && arg != "--help"@ && arg != "-c"@ && arg != "--config"@ && arg
            != "--write-default-config"@ ==> cli_of(earlier, seq![arg] + rest) == (
        CliView::Unknown { arg }),
{
    reveal_strlit("-h");
    reveal_strlit("--help");
    reveal_strlit("-c");
    reveal_strlit("--config");
    reveal_strlit("--write-default-config");
    assert("-h"@.len() == 2 && "-c"@.len() == 2 && "-h"@[1] == 'h' && "-c"@[1] == 'c');
    assert("--help"@.len() == 6 && "--config"@.len() == 8 && "--write-default-config"@.len() == 22);
}

} // verus!
