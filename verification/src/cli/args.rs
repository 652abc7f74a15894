use vstd::prelude::*;
use crate::domain::error::SyswhyError;
use crate::domain::query::{parse_query, Query, QueryView};
use crate::domain::scan::{starts_with, starts_with_text, views};
use crate::domain::text::{owned, text_eq};

verus! {

/// How the result of an investigation is shown.
#[derive(Debug, Clone, Copy, PartialEq, Eq, Structural)]
pub enum OutputMode {
    Plain,
    Evidence,
    Full,
    Debug,
    Json,
}

/// The mathematical value of parsed command-line arguments.
pub struct CliArgsView {
    pub query: QueryView,
    pub output_mode: OutputMode,
}

/// The query and the output mode the user asked for.
#[derive(Debug, Clone)]
pub struct CliArgs {
    pub query: Query,
    pub output_mode: OutputMode,
}

impl View for CliArgs {
    type V = CliArgsView;

    open spec fn view(&self) -> CliArgsView {
        CliArgsView { query: self.query@, output_mode: self.output_mode }
    }
}

impl PartialEq for CliArgs {
    fn eq(&self, other: &Self) -> (r: bool) {
        self.query == other.query && self.output_mode == other.output_mode
    }
}

impl Eq for CliArgs {}

impl vstd::std_specs::cmp::PartialEqSpecImpl for CliArgs {
    open spec fn obeys_eq_spec() -> bool {
        true
    }

    open spec fn eq_spec(&self, other: &Self) -> bool {
        self@ == other@
    }
}

/// The usage line.
pub open spec fn usage_text() -> Seq<char> {
    "usage: syswhy [--plain|--evidence|--full|--debug|--json] <query...>"@
}

/// Where reading the arguments one by one has got: the output mode so far
/// and the words of the query, or the message that stopped it.
pub enum ArgScan {
    Reading(OutputMode, Seq<Seq<char>>),
    Stopped(Seq<char>),
}

/// Reading one more argument.
pub open spec fn scan_step(mode: OutputMode, words: Seq<Seq<char>>, arg: Seq<char>) -> ArgScan {
    if arg == "--plain"@ {
        ArgScan::Reading(OutputMode::Plain, words)
    } else if arg == "--evidence"@ {
        ArgScan::Reading(OutputMode::Evidence, words)
    } else if arg == "--full"@ {
        ArgScan::Reading(OutputMode::Full, words)
    } else if arg == "--debug"@ {
        ArgScan::Reading(OutputMode::Debug, words)
    } else if arg == "--json"@ {
        ArgScan::Reading(OutputMode::Json, words)
    } else if arg == "--help"@ || arg == "-h"@ {
        ArgScan::Stopped(usage_text())
    } else if starts_with(arg, "--"@) {
        ArgScan::Stopped("unknown option: "@ + arg)
    } else {
        ArgScan::Reading(mode, words.push(arg))
    }
}

/// Reading the arguments in order, from the plain output mode and no word;
/// the last output option given wins.
pub open spec fn scan_args(args: Seq<Seq<char>>) -> ArgScan
    decreases args.len(),
{
    if args.len() == 0 {
        ArgScan::Reading(OutputMode::Plain, Seq::empty())
    } else {
        match scan_args(args.drop_last()) {
            ArgScan::Stopped(m) => ArgScan::Stopped(m),
            ArgScan::Reading(mode, words) => scan_step(mode, words, args.last()),
        }
    }
}

/// What parsing the arguments gives: the query and the output mode, or the
/// message of the error.
pub open spec fn parse_cli(args: Seq<Seq<char>>) -> Result<CliArgsView, Seq<char>> {
    match scan_args(args) {
        ArgScan::Stopped(m) => Err(m),
        ArgScan::Reading(mode, words) => match parse_query(words) {
            Ok(q) => Ok(CliArgsView { query: q, output_mode: mode }),
            Err(e) => Err(e),
        },
    }
}

/// The views of a slice of string slices.
pub open spec fn str_views(v: Seq<&str>) -> Seq<Seq<char>> {
    v.map_values(|s: &str| s@)
}

impl CliArgs {
    /// Reads the arguments that follow the program name.
    pub fn parse(args: &[&str]) -> (r: Result<Self, SyswhyError>)
        ensures
            match r {
                Ok(a) => parse_cli(str_views(args@)) == Ok::<CliArgsView, Seq<char>>(a@),
                Err(e) => parse_cli(str_views(args@)) == Err::<CliArgsView, Seq<char>>(e@),
            },
    {
        let ghost av = str_views(args@);
        let mut output_mode = OutputMode::Plain;
        let mut query_parts: Vec<String> = Vec::new();
        let mut i: usize = 0;
        assert(av.take(0) =~= Seq::<Seq<char>>::empty());
        assert(views(query_parts@) =~= Seq::<Seq<char>>::empty());
        while i < args.len()
            invariant
                i <= args.len(),
                av == str_views(args@),
                scan_args(av.take(i as int)) == ArgScan::Reading(output_mode, views(query_parts@)),
            decreases args.len() - i,
        {
            let arg = args[i];
            proof {
                assert(av.take(i + 1).drop_last() =~= av.take(i as int));
                assert(av.take(i + 1).last() == arg@);
            }
            if text_eq(arg, "--plain") {
                output_mode = OutputMode::Plain;
            } else if text_eq(arg, "--evidence") {
                output_mode = OutputMode::Evidence;
            } else if text_eq(arg, "--full") {
                output_mode = OutputMode::Full;
            } else if text_eq(arg, "--debug") {
                output_mode = OutputMode::Debug;
            } else if text_eq(arg, "--json") {
                output_mode = OutputMode::Json;
            } else if text_eq(arg, "--help") || text_eq(arg, "-h") {
                proof {
                    reveal_strlit("usage: syswhy [--plain|--evidence|--full|--debug|--json] <query...>");
                }
                let r = Err(SyswhyError::InvalidQuery(owned(Self::usage())));
                assert(scan_args(av.take(i + 1)) == ArgScan::Stopped(usage_text()));
                proof {
                    lemma_stopped_stays(av, i + 1);
                }
                return r;
            } else if starts_with_text(arg, "--") {
                let mut m = owned("unknown option: ");
                m.append(arg);
                proof {
                    lemma_stopped_stays(av, i + 1);
                }
                return Err(SyswhyError::InvalidQuery(m));
            } else {
                let ghost before = views(query_parts@);
                query_parts.push(owned(arg));
                assert(views(query_parts@) =~= before.push(arg@));
            }
            i += 1;
        }
        assert(av.take(args.len() as int) =~= av);
        match Query::parse(query_parts.as_slice()) {
            Ok(query) => Ok(CliArgs { query, output_mode }),
            Err(e) => Err(e),
        }
    }

    /// The usage line.
    pub fn usage() -> (r: &'static str)
        ensures
            r@ == usage_text(),
    {
        "usage: syswhy [--plain|--evidence|--full|--debug|--json] <query...>"
    }
}

/// Once reading stops, later arguments change nothing.
proof fn lemma_stopped_stays(args: Seq<Seq<char>>, n: int)
    requires
        0 <= n <= args.len(),
        scan_args(args.take(n)) is Stopped,
    ensures
        scan_args(args) == scan_args(args.take(n)),
    decreases args.len() - n,
{
    if n < args.len() {
        assert(args.take(n + 1).drop_last() =~= args.take(n));
        lemma_stopped_stays(args, n + 1);
    } else {
        assert(args.take(n) =~= args);
    }
}

} // verus!
