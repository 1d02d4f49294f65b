//! TreX: a make-like tool for documents written in several files. A
//! configuration file lists the preamble, the files of the document and the
//! chapters and sections they fall in; TreX chooses the files to compile,
//! numbers chapters, sections and subsections, and writes the TeX code that
//! `pdflatex` compiles.
pub mod compile;
pub mod config;
pub mod parse_args;
pub mod text;
pub mod utils;

use vstd::prelude::*;
use vstd::string::*;

use crate::config::DEFAULT_CONFIG;
use crate::parse_args::{has_key, lookup, ArgMap, CLEAN_ARG, FILENAME_ARG, HELP_ARG, VERBOSE_ARG};

verus! {

/// What a run of the program does.
pub enum Step {
    /// Show the help page.
    ShowHelp,
    /// Read the configuration file `config`, then remove the auxiliary files.
    Clean { config: String },
    /// Read the configuration file `config` and compile the document,
    /// reporting the outline first where `verbose` is set.
    Compile { config: String, verbose: bool },
}

/// The configuration file that the options name, or the default one.
pub open spec fn config_path(args: parse_args::Entries) -> Seq<char> {
    match lookup(args, FILENAME_ARG@) {
        Some(f) => f,
        None => DEFAULT_CONFIG@,
    }
}

/// What a run with the options `args` does: the help page where `-h` is
/// given; otherwise cleaning where `-c` is given, and compiling where not.
pub fn plan_run(args: &ArgMap) -> (s: Step)
    ensures
        has_key(args@, HELP_ARG@) ==> s == Step::ShowHelp,
        !has_key(args@, HELP_ARG@) && has_key(args@, CLEAN_ARG@) ==> (s matches Step::Clean {
            config,
        } && config@ == config_path(args@)),
        !has_key(args@, HELP_ARG@) && !has_key(args@, CLEAN_ARG@) ==> (s matches Step::Compile {
            config,
            verbose,
        } && config@ == config_path(args@) && verbose == has_key(args@, VERBOSE_ARG@)),
{
    if args.contains_key(HELP_ARG) {
        return Step::ShowHelp;
    }
    let config = match args.get(FILENAME_ARG) {
        Some(f) => f.clone(),
        None => DEFAULT_CONFIG.to_owned(),
    };
    if args.contains_key(CLEAN_ARG) {
        return Step::Clean { config };
    }
    Step::Compile { config, verbose: args.contains_key(VERBOSE_ARG) }
}

} // verus!
