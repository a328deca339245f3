//! Command-line arguments of the desktop client.
//!
//! `mmdf-client [--config FILE] [--gen-config] [--export-ca PATH]
//! [--test-sni IP SNI] [--version]`: the first of `--gen-config`,
//! `--export-ca`, `--test-sni` and `--version` decides what is done; without
//! one of them the proxy runs with the last `--config` file given.

use vstd::prelude::*;
use crate::text::str_eq;

verus! {

/// What the command line asks for.
#[derive(Debug)]
pub enum Command {
    GenConfig,
    ExportCa(String),
    TestSni { ip: String, sni: String },
    Version,
    Run(Option<String>),
    Usage,
}

pub ghost enum CommandView {
    GenConfig,
    ExportCa(Seq<char>),
    TestSni(Seq<char>, Seq<char>),
    Version,
    Run(Option<Seq<char>>),
    Usage,
}

impl View for Command {
    type V = CommandView;

    open spec fn view(&self) -> CommandView {
        match self {
            Command::GenConfig => CommandView::GenConfig,
            Command::ExportCa(p) => CommandView::ExportCa(p@),
            Command::TestSni { ip, sni } => CommandView::TestSni(ip@, sni@),
            Command::Version => CommandView::Version,
            Command::Run(c) => CommandView::Run(crate::bindings::opt_view(*c)),
            Command::Usage => CommandView::Usage,
        }
    }
}

/// The command read from `args[i..]`, `config` being the config file named
/// so far. `args[0]` is the program name.
pub open spec fn command_from(args: Seq<Seq<char>>, i: int, config: Option<Seq<char>>) -> CommandView
    decreases args.len() - i,
{
    if i < 1 || i >= args.len() {
        CommandView::Run(config)
    } else {
        let a = args[i];
        if a == "--gen-config"@ {
            CommandView::GenConfig
        } else if a == "--export-ca"@ {
            if i + 1 >= args.len() { CommandView::Usage } else { CommandView::ExportCa(args[i + 1]) }
        } else if a == "--test-sni"@ {
            if args.len() - i <= 2 { CommandView::Usage } else { CommandView::TestSni(args[i + 1], args[i + 2]) }
        } else if a == "--version"@ {
            CommandView::Version
        } else if a == "--config"@ {
            if i + 1 >= args.len() { CommandView::Usage } else { command_from(args, i + 2, Some(args[i + 1])) }
        } else {
            CommandView::Usage
        }
    }
}

pub open spec fn arg_views(args: Seq<String>) -> Seq<Seq<char>> {
    args.map_values(|a: String| a@)
}

/// Reads the command line (`args[0]` being the program name).
pub fn parse_cli(args: &Vec<String>) -> (r: Command)
    ensures
        r@ == command_from(arg_views(args@), 1, None),
{
    let ghost av = arg_views(args@);
    let mut config: Option<String> = None;
    let mut i: usize = 1;
    while i < args.len()
        invariant
            1 <= i,
            av == arg_views(args@),
            command_from(av, 1, None) == command_from(av, i as int, crate::bindings::opt_view(config)),
        decreases args@.len() - i,
    {
        let a = args[i].as_str();
        assert(av[i as int] == a@);
        if str_eq(a, "--gen-config") {
            return Command::GenConfig;
        } else if str_eq(a, "--export-ca") {
            if i + 1 >= args.len() {
                return Command::Usage;
            }
            return Command::ExportCa(args[i + 1].clone());
        } else if str_eq(a, "--test-sni") {
            if args.len() - i <= 2 {
                return Command::Usage;
            }
            return Command::TestSni { ip: args[i + 1].clone(), sni: args[i + 2].clone() };
        } else if str_eq(a, "--version") {
            return Command::Version;
        } else if str_eq(a, "--config") {
            if i + 1 >= args.len() {
                return Command::Usage;
            }
            config = Some(args[i + 1].clone());
            i = i + 2;
        } else {
            return Command::Usage;
        }
    }
    Command::Run(config)
}

} // verus!
