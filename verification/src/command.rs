//! Building the agent's argument vector.
//!
//! A command is an argv list whose first element is the agent binary; turning
//! it into a process is the caller's business.

use vstd::prelude::*;

use crate::json::{spec_format_micros, push_micros};
use crate::text::{
    spec_format_nat, chars_of, format_u64_string, push_u64, string_from_chars,
};

verus! {

/// Options beyond the prompt and permissions.
pub struct CommandOptions {
    /// Arguments prepended verbatim, typically `--resume <id>`.
    pub resume_args: Vec<String>,
    /// Turn cap, passed as `--max-turns`.
    pub max_turns: Option<u32>,
    /// Budget cap in micro-dollars, passed as `--max-budget-usd`.
    pub max_cost_micros: Option<u64>,
}

impl CommandOptions {
    /// No resume arguments and no caps.
    pub fn new() -> (r: CommandOptions)
        ensures
            r.resume_args.deep_view() == Seq::<Seq<char>>::empty(),
            r.max_turns is None,
            r.max_cost_micros is None,
    {
        let r = CommandOptions { resume_args: Vec::new(), max_turns: None, max_cost_micros: None };
        proof {
            assert(r.resume_args.deep_view() =~~= Seq::<Seq<char>>::empty());
        }
        r
    }
}

/// A budget in dollars: whole dollars bare, otherwise with the fraction.
pub open spec fn spec_format_budget(m: u64) -> Seq<char> {
    if m as nat % 1000000 == 0 {
        spec_format_nat(m as nat / 1000000)
    } else {
        spec_format_micros(m as nat)
    }
}

/// The full argument vector for one invocation: the agent program token
/// first, then any resume arguments, the prompt under `-p`, the streaming
/// flags, the permission list under `--allowedTools` when non-empty, and
/// the caps. The program token is the fixed name `agent`; the runner maps
/// it to the deployed agent binary when it spawns the process.
pub open spec fn spec_command_argv(
    prompt: Seq<char>,
    permissions: Seq<Seq<char>>,
    resume_args: Seq<Seq<char>>,
    max_turns: Option<u32>,
    max_cost_micros: Option<u64>,
) -> Seq<Seq<char>> {
    seq!["agent"@] + resume_args + seq!["-p"@, prompt, "--verbose"@, "--output-format"@,
        "stream-json"@] + (if permissions.len() > 0 {
        seq!["--allowedTools"@] + permissions
    } else {
        Seq::empty()
    }) + (match max_turns {
        Some(n) => seq!["--max-turns"@, spec_format_nat(n as nat)],
        None => Seq::empty(),
    }) + (match max_cost_micros {
        Some(m) => seq!["--max-budget-usd"@, spec_format_budget(m)],
        None => Seq::empty(),
    })
}

/// Build the argv for a prompt with permissions and full options.
pub fn build_command_with_options(
    prompt: &str,
    permissions: &Vec<String>,
    options: &CommandOptions,
) -> (r: Vec<String>)
    ensures
        r.deep_view() == spec_command_argv(
            prompt@,
            permissions.deep_view(),
            options.resume_args.deep_view(),
            options.max_turns,
            options.max_cost_micros,
        ),
{
    let ghost target = spec_command_argv(
        prompt@,
        permissions.deep_view(),
        options.resume_args.deep_view(),
        options.max_turns,
        options.max_cost_micros,
    );
    let mut r: Vec<String> = Vec::new();
    r.push("agent".to_owned());
    let mut k: usize = 0;
    while k < options.resume_args.len()
        invariant
            k <= options.resume_args@.len(),
            r.deep_view() == seq!["agent"@] + options.resume_args.deep_view().take(k as int),
        decreases options.resume_args@.len() - k,
    {
        let ghost pre = r.deep_view();
        r.push(crate::stream::clone_string(&options.resume_args[k]));
        proof {
            assert(r.deep_view() =~~= pre.push(options.resume_args.deep_view()[k as int]));
            assert(seq!["agent"@] + options.resume_args.deep_view().take(k + 1) =~~= pre.push(
                options.resume_args.deep_view()[k as int],
            ));
        }
        k = k + 1;
    }
    proof {
        assert(options.resume_args.deep_view().take(options.resume_args@.len() as int)
            =~= options.resume_args.deep_view());
    }
    r.push("-p".to_owned());
    r.push(prompt.to_owned());
    r.push("--verbose".to_owned());
    r.push("--output-format".to_owned());
    r.push("stream-json".to_owned());
    let ghost base = r.deep_view();
    proof {
        assert(base =~~= seq!["agent"@] + options.resume_args.deep_view() + seq!["-p"@, prompt@,
            "--verbose"@, "--output-format"@, "stream-json"@]);
    }
    if permissions.len() > 0 {
        r.push("--allowedTools".to_owned());
        let mut k: usize = 0;
        while k < permissions.len()
            invariant
                k <= permissions@.len(),
                r.deep_view() == base + seq!["--allowedTools"@] + permissions.deep_view().take(
                    k as int,
                ),
            decreases permissions@.len() - k,
        {
            let ghost pre = r.deep_view();
            r.push(crate::stream::clone_string(&permissions[k]));
            proof {
                assert(r.deep_view() =~~= pre.push(permissions.deep_view()[k as int]));
                assert(base + seq!["--allowedTools"@] + permissions.deep_view().take(k + 1)
                    =~~= pre.push(permissions.deep_view()[k as int]));
            }
            k = k + 1;
        }
        proof {
            assert(permissions.deep_view().take(permissions@.len() as int)
                =~= permissions.deep_view());
        }
    }
    let ghost with_perms = r.deep_view();
    proof {
        assert(with_perms =~~= base + (if permissions.deep_view().len() > 0 {
            seq!["--allowedTools"@] + permissions.deep_view()
        } else {
            Seq::<Seq<char>>::empty()
        }));
    }
    match options.max_turns {
        Some(n) => {
            r.push("--max-turns".to_owned());
            r.push(format_u64_string(n as u64));
        },
        None => {},
    }
    let ghost with_turns = r.deep_view();
    proof {
        assert(with_turns =~~= with_perms + (match options.max_turns {
            Some(n) => seq!["--max-turns"@, spec_format_nat(n as nat)],
            None => Seq::<Seq<char>>::empty(),
        }));
    }
    match options.max_cost_micros {
        Some(m) => {
            r.push("--max-budget-usd".to_owned());
            r.push(format_budget(m));
        },
        None => {},
    }
    proof {
        assert(r.deep_view() =~~= with_turns + (match options.max_cost_micros {
            Some(m) => seq!["--max-budget-usd"@, spec_format_budget(m)],
            None => Seq::<Seq<char>>::empty(),
        }));
        assert(r.deep_view() =~~= target);
    }
    r
}

/// The dollar text of a budget cap.
pub fn format_budget(m: u64) -> (r: String)
    ensures
        r@ == spec_format_budget(m),
{
    if m % 1000000 == 0 {
        format_u64_string(m / 1000000)
    } else {
        let mut out: Vec<char> = Vec::new();
        push_micros(&mut out, m);
        proof {
            assert(out@ =~= spec_format_micros(m as nat));
        }
        string_from_chars(&out)
    }
}

/// Build the argv for a prompt with permissions and no extra options.
pub fn build_command(prompt: &str, permissions: &Vec<String>) -> (r: Vec<String>)
    ensures
        r.deep_view() == spec_command_argv(
            prompt@,
            permissions.deep_view(),
            Seq::empty(),
            None,
            None,
        ),
{
    let options = CommandOptions::new();
    build_command_with_options(prompt, permissions, &options)
}

/// Build the argv for a prompt, resuming a prior session.
pub fn build_command_with_session(
    prompt: &str,
    permissions: &Vec<String>,
    resume_args: &Vec<String>,
) -> (r: Vec<String>)
    ensures
        r.deep_view() == spec_command_argv(
            prompt@,
            permissions.deep_view(),
            resume_args.deep_view(),
            None,
            None,
        ),
{
    let mut options = CommandOptions::new();
    let mut k: usize = 0;
    while k < resume_args.len()
        invariant
            k <= resume_args@.len(),
            options.resume_args.deep_view() == resume_args.deep_view().take(k as int),
            options.max_turns is None,
            options.max_cost_micros is None,
        decreases resume_args@.len() - k,
    {
        let ghost pre = options.resume_args.deep_view();
        options.resume_args.push(crate::stream::clone_string(&resume_args[k]));
        proof {
            assert(options.resume_args.deep_view() =~~= pre.push(
                resume_args.deep_view()[k as int],
            ));
            assert(resume_args.deep_view().take(k + 1) =~~= pre.push(
                resume_args.deep_view()[k as int],
            ));
        }
        k = k + 1;
    }
    proof {
        assert(resume_args.deep_view().take(resume_args@.len() as int)
            =~= resume_args.deep_view());
    }
    build_command_with_options(prompt, permissions, &options)
}

} // verus!
