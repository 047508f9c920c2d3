//! The command-line surface: its options, defaults and usage rule.

use vstd::prelude::*;

use crate::text::{chars_of, eq_chars, parse_u64_range, string_from_chars};

verus! {

/// The subcommands.
pub enum Command {
    /// Print diagnostics and exit.
    Doctor,
    /// Scaffold a new project.
    Init,
}

/// The parsed command line.
pub struct Cli {
    /// Execute this cycle each iteration instead of consulting the selector.
    pub cycle: Option<String>,
    /// The configuration file path.
    pub config: String,
    /// The directory for the log and progress files.
    pub log_dir: String,
    /// The iteration ceiling.
    pub max_iterations: u32,
    /// The task file the selector reads.
    pub todo: String,
    /// The subcommand, if one was given.
    pub command: Option<Command>,
}

impl Cli {
    /// Parse an argument list: the program name, then `--cycle`, `--config`,
    /// `--log-dir`, `--max-iterations` and `--todo`, each taking a value,
    /// plus the `doctor` and `init` subcommands. Unknown arguments, missing
    /// values and malformed numbers are rejected; with no arguments beyond
    /// the program name, every option keeps its default.
    pub fn try_parse_from(args: &Vec<String>) -> (r: Result<Cli, String>)
        ensures
            args@.len() <= 1 ==> (r matches Ok(c) && c.cycle is None && c.config@
                == "cycles.toml"@ && c.log_dir@ == ".flow"@ && c.max_iterations == 1 && c.todo@
                == "TODO.md"@ && c.command is None),
    {
        let mut cycle: Option<String> = None;
        let mut config: String = "cycles.toml".to_owned();
        let mut log_dir: String = ".flow".to_owned();
        let mut max_iterations: u32 = 1;
        let mut todo: String = "TODO.md".to_owned();
        let mut command: Option<Command> = None;
        let mut k: usize = 1;
        while k < args.len()
            invariant
                k >= 1,
                args@.len() <= 1 ==> (cycle is None && config@ == "cycles.toml"@ && log_dir@
                    == ".flow"@ && max_iterations == 1 && todo@ == "TODO.md"@
                    && command is None),
            decreases args@.len() - k,
        {
            let a = chars_of(args[k].as_str());
            if eq_chars(&a, &chars_of("--cycle")) {
                if k + 1 >= args.len() {
                    return Err("missing value for --cycle".to_owned());
                }
                cycle = Some(crate::stream::clone_string(&args[k + 1]));
                k = k + 2;
            } else if eq_chars(&a, &chars_of("--config")) {
                if k + 1 >= args.len() {
                    return Err("missing value for --config".to_owned());
                }
                config = crate::stream::clone_string(&args[k + 1]);
                k = k + 2;
            } else if eq_chars(&a, &chars_of("--log-dir")) {
                if k + 1 >= args.len() {
                    return Err("missing value for --log-dir".to_owned());
                }
                log_dir = crate::stream::clone_string(&args[k + 1]);
                k = k + 2;
            } else if eq_chars(&a, &chars_of("--max-iterations")) {
                if k + 1 >= args.len() {
                    return Err("missing value for --max-iterations".to_owned());
                }
                let digits = chars_of(args[k + 1].as_str());
                match parse_u64_range(&digits, 0, digits.len()) {
                    Some(n) => {
                        if n > 0xffff_ffff {
                            return Err("--max-iterations is out of range".to_owned());
                        }
                        max_iterations = n as u32;
                    },
                    None => {
                        return Err("--max-iterations takes a number".to_owned());
                    },
                }
                k = k + 2;
            } else if eq_chars(&a, &chars_of("--todo")) {
                if k + 1 >= args.len() {
                    return Err("missing value for --todo".to_owned());
                }
                todo = crate::stream::clone_string(&args[k + 1]);
                k = k + 2;
            } else if eq_chars(&a, &chars_of("doctor")) {
                command = Some(Command::Doctor);
                k = k + 1;
            } else if eq_chars(&a, &chars_of("init")) {
                command = Some(Command::Init);
                k = k + 1;
            } else {
                return Err("unrecognized argument".to_owned());
            }
        }
        Ok(Cli { cycle, config, log_dir, max_iterations, todo, command })
    }
}

/// The usage rule of a run: without a fixed cycle, the selector needs more
/// than one iteration to be worth engaging; one lone iteration without a
/// cycle is an error.
pub fn cli_usage_ok(cycle_is_some: bool, max_iterations: u32) -> (r: bool)
    ensures
        r == (cycle_is_some || max_iterations > 1),
{
    cycle_is_some || max_iterations > 1
}

/// The names of the configured cycles, comma-joined, for error messages.
pub fn available_cycle_names(config: &crate::config::FlowConfig) -> (r: String)
    ensures
        r@ == spec_joined_names(config.cycles@, 0),
{
    let mut names: Vec<String> = Vec::new();
    let mut k: usize = 0;
    while k < config.cycles.len()
        invariant
            k <= config.cycles@.len(),
            names.deep_view() == config.cycles@.take(k as int).map_values(
                |c: crate::config::CycleConfig| c.name@,
            ),
        decreases config.cycles@.len() - k,
    {
        let ghost pre = names.deep_view();
        names.push(crate::stream::clone_string(&config.cycles[k].name));
        proof {
            assert(names.deep_view() =~~= pre.push(config.cycles@[k as int].name@));
            assert(config.cycles@.take(k + 1).map_values(
                |c: crate::config::CycleConfig| c.name@,
            ) =~~= pre.push(config.cycles@[k as int].name@));
        }
        k = k + 1;
    }
    proof {
        assert(config.cycles@.take(config.cycles@.len() as int) =~= config.cycles@);
    }
    let mut out: Vec<char> = Vec::new();
    crate::context::push_join_comma_pub(&mut out, &names);
    proof {
        lemma_joined_names(
            config.cycles@,
            config.cycles@.map_values(|c: crate::config::CycleConfig| c.name@),
            0,
        );
    }
    string_from_chars(&out)
}

/// The configured cycle names from `k` on, comma-joined.
pub open spec fn spec_joined_names(cycles: Seq<crate::config::CycleConfig>, k: int) -> Seq<char>
    decreases cycles.len() - k,
{
    if !(0 <= k < cycles.len()) {
        Seq::empty()
    } else if k == cycles.len() - 1 {
        cycles[k].name@
    } else {
        cycles[k].name@ + ", "@ + spec_joined_names(cycles, k + 1)
    }
}

/// Joining the mapped names equals joining the cycles' names.
proof fn lemma_joined_names(
    cycles: Seq<crate::config::CycleConfig>,
    names: Seq<Seq<char>>,
    k: int,
)
    requires
        0 <= k,
        names == cycles.map_values(|c: crate::config::CycleConfig| c.name@),
    ensures
        crate::context::spec_join_comma(names, k) == spec_joined_names(cycles, k),
    decreases cycles.len() - k,
{
    if k < cycles.len() {
        lemma_joined_names(cycles, names, k + 1);
    }
}

} // verus!
