//! Pure text rendering: truncation, durations, dollar amounts, the run
//! summary and the diagnostic report.

use vstd::prelude::*;

use crate::doctor::{DiagnosticReport, Finding, Severity};
use crate::json::{spec_get, Json, JsonSpec, obj_get};
use crate::text::{
    spec_format_nat, view_pairs_u32, chars_of, push_chars, push_str, push_string, push_u64,
    string_from_chars,
};

verus! {

/// At most `max_chars` characters, with an ellipsis when something was cut.
pub open spec fn spec_truncate(s: Seq<char>, max_chars: int) -> Seq<char> {
    if s.len() <= max_chars {
        s
    } else {
        s.take(max_chars) + "..."@
    }
}

/// Truncate to a character budget, appending `...` when over it.
pub fn truncate(s: &str, max_chars: usize) -> (r: String)
    ensures
        r@ == spec_truncate(s@, max_chars as int),
{
    let v = chars_of(s);
    if v.len() <= max_chars {
        s.to_owned()
    } else {
        let mut out = crate::text::slice_range(&v, 0, max_chars);
        push_str(&mut out, "...");
        proof {
            assert(out@ =~= s@.take(max_chars as int) + "..."@);
        }
        string_from_chars(&out)
    }
}

/// Display state for one cycle execution; the rendering itself lives with
/// the terminal.
pub struct CycleDisplay {
    /// The cycle being displayed.
    pub cycle_name: String,
}

impl CycleDisplay {
    /// A display for the given cycle.
    pub fn new(cycle_name: &str) -> (r: CycleDisplay)
        ensures
            r.cycle_name@ == cycle_name@,
    {
        CycleDisplay { cycle_name: cycle_name.to_owned() }
    }
}

/// A duration in seconds as minutes and seconds: `42s`, `5m`, or `2m 15s`.
pub open spec fn spec_duration_text(secs: u64) -> Seq<char> {
    let mins = secs as nat / 60;
    let rest = secs as nat % 60;
    if mins == 0 {
        spec_format_nat(rest) + "s"@
    } else if rest == 0 {
        spec_format_nat(mins) + "m"@
    } else {
        spec_format_nat(mins) + "m "@ + spec_format_nat(rest) + "s"@
    }
}

/// Format a duration in seconds for humans.
pub fn format_duration(secs: u64) -> (r: String)
    ensures
        r@ == spec_duration_text(secs),
{
    let mins: u64 = secs / 60;
    let rest: u64 = secs % 60;
    let mut out: Vec<char> = Vec::new();
    if mins == 0 {
        push_u64(&mut out, rest);
        push_str(&mut out, "s");
    } else if rest == 0 {
        push_u64(&mut out, mins);
        push_str(&mut out, "m");
    } else {
        push_u64(&mut out, mins);
        push_str(&mut out, "m ");
        push_u64(&mut out, rest);
        push_str(&mut out, "s");
    }
    proof {
        assert(out@ =~= spec_duration_text(secs));
    }
    string_from_chars(&out)
}

/// A dollar amount with two decimal places, rounded half away from zero.
pub open spec fn spec_usd2(micros: u64) -> Seq<char> {
    let cents = (micros + 5000) as nat / 10000;
    spec_format_nat(cents / 100) + seq!['.'] + spec_pad2(cents % 100)
}

/// Two digits, zero-padded.
pub open spec fn spec_pad2(n: nat) -> Seq<char> {
    if n < 10 {
        seq!['0'] + spec_format_nat(n)
    } else {
        spec_format_nat(n)
    }
}

/// Append a dollar amount with two decimal places.
pub fn push_usd2(out: &mut Vec<char>, micros: u64)
    ensures
        final(out)@ == old(out)@ + spec_usd2(micros),
{
    let cents128: u128 = (micros as u128 + 5000) / 10000;
    let cents: u64 = cents128 as u64;
    proof {
        assert(cents as nat == (micros + 5000) as nat / 10000);
    }
    push_u64(out, cents / 100);
    out.push('.');
    let frac: u64 = cents % 100;
    if frac < 10 {
        out.push('0');
    }
    push_u64(out, frac);
    proof {
        assert(out@ =~= old(out)@ + spec_usd2(micros));
    }
}

/// The `name×count` parts of the run summary, joined by commas.
pub open spec fn spec_cycle_parts(counts: Seq<(Seq<char>, u32)>, k: int) -> Seq<char>
    decreases counts.len() - k,
{
    if !(0 <= k < counts.len()) {
        Seq::empty()
    } else {
        let head = counts[k].0 + "\u{d7}"@ + spec_format_nat(counts[k].1 as nat);
        if k == counts.len() - 1 {
            head
        } else {
            head + ", "@ + spec_cycle_parts(counts, k + 1)
        }
    }
}

/// The periodic run summary block.
pub open spec fn spec_run_summary(
    iteration: u32,
    max_iterations: u32,
    total_cost_micros: u64,
    counts: Seq<(Seq<char>, u32)>,
    successes: u32,
    failures: u32,
    duration_secs: u64,
) -> Seq<char> {
    "\u{2500}\u{2500}\u{2500} Run Summary ("@ + spec_format_nat(iteration as nat) + "/"@
        + spec_format_nat(max_iterations as nat) + ") \u{2500}\u{2500}\u{2500}\nCycles: "@
        + spec_cycle_parts(counts, 0) + "\nResults: "@ + spec_format_nat(successes as nat) + "/"@
        + spec_format_nat((successes + failures) as nat) + " succeeded\nCost: $"@ + spec_usd2(
        total_cost_micros,
    ) + " | Duration: "@ + spec_duration_text(duration_secs) + seq!['\n']
        + "\u{2500}\u{2500}\u{2500}\u{2500}\u{2500}\u{2500}\u{2500}\u{2500}\u{2500}\u{2500}\u{2500}\u{2500}\u{2500}\u{2500}\u{2500}\u{2500}\u{2500}\u{2500}\u{2500}\u{2500}\u{2500}\u{2500}\u{2500}\u{2500}\u{2500}\u{2500}\u{2500}\u{2500}\u{2500}\u{2500}\u{2500}\u{2500}"@
}

/// Render the periodic run summary.
#[verifier::rlimit(60)]
pub fn render_run_summary(
    iteration: u32,
    max_iterations: u32,
    total_cost_micros: u64,
    cycles: &Vec<(String, u32)>,
    successes: u32,
    failures: u32,
    duration_secs: u64,
) -> (r: String)
    requires
        successes + failures <= u32::MAX,
    ensures
        r@ == spec_run_summary(
            iteration,
            max_iterations,
            total_cost_micros,
            view_pairs_u32(cycles@),
            successes,
            failures,
            duration_secs,
        ),
{
    let ghost vp = view_pairs_u32(cycles@);
    let mut out: Vec<char> = Vec::new();
    push_str(&mut out, "\u{2500}\u{2500}\u{2500} Run Summary (");
    push_u64(&mut out, iteration as u64);
    push_str(&mut out, "/");
    push_u64(&mut out, max_iterations as u64);
    push_str(&mut out, ") \u{2500}\u{2500}\u{2500}\nCycles: ");
    let ghost before_parts = out@;
    let mut k: usize = 0;
    while k < cycles.len()
        invariant
            k <= cycles@.len(),
            vp == view_pairs_u32(cycles@),
            vp.len() == cycles@.len(),
            before_parts + spec_cycle_parts(vp, 0) == out@ + (if k < cycles@.len() {
                spec_cycle_parts(vp, k as int)
            } else {
                Seq::<char>::empty()
            }),
        decreases cycles@.len() - k,
    {
        let ghost pre = out@;
        push_string(&mut out, &cycles[k].0);
        push_str(&mut out, "\u{d7}");
        push_u64(&mut out, cycles[k].1 as u64);
        if k + 1 < cycles.len() {
            push_str(&mut out, ", ");
            proof {
                assert(out@ + spec_cycle_parts(vp, k + 1) =~= pre + spec_cycle_parts(
                    vp,
                    k as int,
                ));
            }
        } else {
            proof {
                assert(out@ =~= pre + spec_cycle_parts(vp, k as int));
            }
        }
        k = k + 1;
    }
    proof {
        if cycles@.len() == 0 {
            assert(spec_cycle_parts(vp, 0) =~= Seq::<char>::empty());
            assert(out@ =~= before_parts + spec_cycle_parts(vp, 0));
        }
    }
    push_str(&mut out, "\nResults: ");
    push_u64(&mut out, successes as u64);
    push_str(&mut out, "/");
    push_u64(&mut out, successes as u64 + failures as u64);
    push_str(&mut out, " succeeded\nCost: $");
    push_usd2(&mut out, total_cost_micros);
    push_str(&mut out, " | Duration: ");
    let d = format_duration(duration_secs);
    push_string(&mut out, &d);
    out.push('\n');
    push_str(
        &mut out,
        "\u{2500}\u{2500}\u{2500}\u{2500}\u{2500}\u{2500}\u{2500}\u{2500}\u{2500}\u{2500}\u{2500}\u{2500}\u{2500}\u{2500}\u{2500}\u{2500}\u{2500}\u{2500}\u{2500}\u{2500}\u{2500}\u{2500}\u{2500}\u{2500}\u{2500}\u{2500}\u{2500}\u{2500}\u{2500}\u{2500}\u{2500}\u{2500}",
    );
    proof {
        assert(out@ =~= spec_run_summary(
            iteration,
            max_iterations,
            total_cost_micros,
            vp,
            successes,
            failures,
            duration_secs,
        ));
    }
    string_from_chars(&out)
}

/// One line summarizing a tool's input: the file path for file tools, the
/// truncated command for the shell tool, the pattern for the search tools.
pub open spec fn spec_tool_input_summary(tool: Seq<char>, input: JsonSpec) -> Seq<char> {
    if tool == "Edit"@ || tool == "Read"@ || tool == "Write"@ {
        match spec_get(input, "file_path"@) {
            Some(JsonSpec::Str(p)) => " "@ + p,
            _ => Seq::empty(),
        }
    } else if tool == "Bash"@ {
        match spec_get(input, "command"@) {
            Some(JsonSpec::Str(c)) => " `"@ + spec_truncate(c, 80) + "`"@,
            _ => Seq::empty(),
        }
    } else if tool == "Glob"@ {
        match spec_get(input, "pattern"@) {
            Some(JsonSpec::Str(p)) => " "@ + p,
            _ => Seq::empty(),
        }
    } else if tool == "Grep"@ {
        match spec_get(input, "pattern"@) {
            Some(JsonSpec::Str(p)) => " /"@ + p + "/"@,
            _ => Seq::empty(),
        }
    } else {
        Seq::empty()
    }
}

/// Summarize a tool's input for display.
pub fn summarize_tool_input(tool_name: &str, input: &Json) -> (r: String)
    ensures
        r@ == spec_tool_input_summary(tool_name@, input@),
{
    let t = chars_of(tool_name);
    let fields = match input {
        Json::Obj(f) => Some(f),
        _ => None,
    };
    let mut out: Vec<char> = Vec::new();
    if crate::text::eq_chars(&t, &chars_of("Edit")) || crate::text::eq_chars(&t, &chars_of("Read"))
        || crate::text::eq_chars(&t, &chars_of("Write")) {
        match fields {
            Some(f) => match obj_get(f, "file_path") {
                Some(Json::Str(p)) => {
                    push_str(&mut out, " ");
                    push_chars(&mut out, p);
                    proof {
                        assert(out@ =~= " "@ + p@);
                    }
                },
                _ => {},
            },
            None => {},
        }
    } else if crate::text::eq_chars(&t, &chars_of("Bash")) {
        match fields {
            Some(f) => match obj_get(f, "command") {
                Some(Json::Str(c)) => {
                    push_str(&mut out, " `");
                    let cs = string_from_chars(&crate::stream::copy_chars_pub(c));
                    let tr = truncate(cs.as_str(), 80);
                    push_string(&mut out, &tr);
                    push_str(&mut out, "`");
                    proof {
                        assert(out@ =~= " `"@ + spec_truncate(c@, 80) + "`"@);
                    }
                },
                _ => {},
            },
            None => {},
        }
    } else if crate::text::eq_chars(&t, &chars_of("Glob")) {
        match fields {
            Some(f) => match obj_get(f, "pattern") {
                Some(Json::Str(p)) => {
                    push_str(&mut out, " ");
                    push_chars(&mut out, p);
                    proof {
                        assert(out@ =~= " "@ + p@);
                    }
                },
                _ => {},
            },
            None => {},
        }
    } else if crate::text::eq_chars(&t, &chars_of("Grep")) {
        match fields {
            Some(f) => match obj_get(f, "pattern") {
                Some(Json::Str(p)) => {
                    push_str(&mut out, " /");
                    push_chars(&mut out, p);
                    push_str(&mut out, "/");
                    proof {
                        assert(out@ =~= " /"@ + p@ + "/"@);
                    }
                },
                _ => {},
            },
            None => {},
        }
    }
    proof {
        if out@.len() == 0 {
            assert(out@ =~= Seq::<char>::empty());
        }
    }
    string_from_chars(&out)
}

/// One finding's lines in the report.
pub open spec fn spec_finding_lines(f: Finding) -> Seq<char> {
    (match f.severity {
        Severity::Error => "[ERROR] "@,
        Severity::Warning => "[WARN ] "@,
        Severity::Info => "[INFO ] "@,
    }) + f.code@ + ": "@ + f.message@ + (match f.suggestion {
        Some(s) => "\n       Fix: "@ + s@,
        None => Seq::empty(),
    })
}

/// The findings, one block per line group, joined with newlines.
pub open spec fn spec_report_lines(findings: Seq<Finding>, k: int) -> Seq<char>
    decreases findings.len() - k,
{
    if !(0 <= k < findings.len()) {
        Seq::empty()
    } else {
        spec_finding_lines(findings[k]) + seq!['\n'] + spec_report_lines(findings, k + 1)
    }
}

/// The summary tail of the report.
pub open spec fn spec_report_summary(errors: nat, warnings: nat, infos: nat) -> Seq<char> {
    "\nSummary: "@ + (if errors > 0 {
        spec_format_nat(errors) + (if errors == 1 {
            " error"@
        } else {
            " errors"@
        }) + (if warnings > 0 || infos > 0 {
            ", "@
        } else {
            Seq::empty()
        })
    } else {
        Seq::empty()
    }) + (if warnings > 0 {
        spec_format_nat(warnings) + (if warnings == 1 {
            " warning"@
        } else {
            " warnings"@
        }) + (if infos > 0 {
            ", "@
        } else {
            Seq::empty()
        })
    } else {
        Seq::empty()
    }) + (if infos > 0 {
        spec_format_nat(infos) + " info"@
    } else {
        Seq::empty()
    })
}

/// The whole report: the clean note, or the findings with a count summary.
pub open spec fn spec_diagnostic_report(r: DiagnosticReport) -> Seq<char> {
    if r.findings@.len() == 0 {
        "No issues found. Your configuration looks healthy."@
    } else {
        spec_report_lines(r.findings@, 0) + spec_report_summary(
            crate::doctor::spec_count_severity(r.findings@, Severity::Error),
            crate::doctor::spec_count_severity(r.findings@, Severity::Warning),
            crate::doctor::spec_count_severity(r.findings@, Severity::Info),
        )
    }
}

/// Render a diagnostic report: each finding with its code, message and
/// suggested fix, then a count summary.
#[verifier::rlimit(100)]
#[verifier::spinoff_prover]
pub fn render_diagnostic_report(report: &DiagnosticReport) -> (r: String)
    ensures
        r@ == spec_diagnostic_report(*report),
{
    if report.findings.len() == 0 {
        return "No issues found. Your configuration looks healthy.".to_owned();
    }
    let mut out: Vec<char> = Vec::new();
    let ghost fs = report.findings@;
    let mut k: usize = 0;
    while k < report.findings.len()
        invariant
            k <= fs.len(),
            fs == report.findings@,
            out@ + spec_report_lines(fs, k as int) == spec_report_lines(fs, 0),
        decreases fs.len() - k,
    {
        let ghost pre = out@;
        let f = &report.findings[k];
        match f.severity {
            Severity::Error => push_str(&mut out, "[ERROR] "),
            Severity::Warning => push_str(&mut out, "[WARN ] "),
            Severity::Info => push_str(&mut out, "[INFO ] "),
        }
        push_string(&mut out, &f.code);
        push_str(&mut out, ": ");
        push_string(&mut out, &f.message);
        match &f.suggestion {
            Some(s) => {
                push_str(&mut out, "\n       Fix: ");
                push_string(&mut out, s);
            },
            None => {},
        }
        out.push('\n');
        proof {
            assert(out@ =~= pre + (spec_finding_lines(fs[k as int]) + seq!['\n']));
            assert(out@ + spec_report_lines(fs, k + 1) =~= pre + spec_report_lines(fs, k as int));
        }
        k = k + 1;
    }
    proof {
        assert(spec_report_lines(fs, fs.len() as int) =~= Seq::<char>::empty());
        assert(out@ =~= spec_report_lines(fs, 0));
    }
    let errors = report.error_count();
    let warnings = report.warning_count();
    let infos = report.info_count();
    push_str(&mut out, "\nSummary: ");
    let ghost base = out@;
    if errors > 0 {
        push_u64(&mut out, errors as u64);
        if errors == 1 {
            push_str(&mut out, " error");
        } else {
            push_str(&mut out, " errors");
        }
        if warnings > 0 || infos > 0 {
            push_str(&mut out, ", ");
        }
    }
    let ghost after_err = out@;
    if warnings > 0 {
        push_u64(&mut out, warnings as u64);
        if warnings == 1 {
            push_str(&mut out, " warning");
        } else {
            push_str(&mut out, " warnings");
        }
        if infos > 0 {
            push_str(&mut out, ", ");
        }
    }
    let ghost after_warn = out@;
    if infos > 0 {
        push_u64(&mut out, infos as u64);
        push_str(&mut out, " info");
    }
    proof {
        assert(out@ =~= spec_report_lines(fs, 0) + spec_report_summary(
            crate::doctor::spec_count_severity(fs, Severity::Error),
            crate::doctor::spec_count_severity(fs, Severity::Warning),
            crate::doctor::spec_count_severity(fs, Severity::Info),
        ));
    }
    string_from_chars(&out)
}

} // verus!
