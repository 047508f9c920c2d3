//! History context for prompt injection.

use vstd::prelude::*;

use crate::config::ContextMode;
use crate::json::spec_pad6;
use crate::outcome::CycleOutcome;
use crate::text::{
    spec_format_nat, chars_of, push_chars, push_str, push_string, push_u64, string_from_chars,
};

verus! {

/// One summary bullet: `- Iteration <n> [<cycle>]: <outcome>`.
pub open spec fn spec_summary_line(o: CycleOutcome) -> Seq<char> {
    "- Iteration "@ + spec_format_nat(o.iteration as nat) + " ["@ + o.cycle@ + "]: "@ + o.outcome@
}

/// The summary bullets joined by newlines.
pub open spec fn spec_summary_lines(outcomes: Seq<CycleOutcome>, k: int) -> Seq<char>
    decreases outcomes.len() - k,
{
    if !(0 <= k < outcomes.len()) {
        Seq::empty()
    } else if k == outcomes.len() - 1 {
        spec_summary_line(outcomes[k])
    } else {
        spec_summary_line(outcomes[k]) + seq!['\n'] + spec_summary_lines(outcomes, k + 1)
    }
}

/// The summaries block: a header, a blank line, then one bullet per entry,
/// or a note that no history exists.
pub open spec fn spec_summaries_context(outcomes: Seq<CycleOutcome>) -> Seq<char> {
    "## Previous Iteration Summaries"@ + seq!['\n', '\n'] + (if outcomes.len() == 0 {
        "No previous iterations."@
    } else {
        spec_summary_lines(outcomes, 0)
    })
}

/// A dollar amount with four decimal places, the fraction truncated.
pub open spec fn spec_usd4(micros: u64) -> Seq<char> {
    spec_format_nat(micros as nat / 1000000) + seq!['.'] + spec_pad6(
        micros as nat % 1000000,
    ).take(4)
}

/// The comma-separated file list.
pub open spec fn spec_join_comma(items: Seq<Seq<char>>, k: int) -> Seq<char>
    decreases items.len() - k,
{
    if !(0 <= k < items.len()) {
        Seq::empty()
    } else if k == items.len() - 1 {
        items[k]
    } else {
        items[k] + ", "@ + spec_join_comma(items, k + 1)
    }
}

/// The full-context block of one entry: a heading and one line per known
/// detail, each line ending in a newline (the trailing blank line separates
/// entries).
pub open spec fn spec_full_entry(o: CycleOutcome) -> Seq<char> {
    "### Iteration "@ + spec_format_nat(o.iteration as nat) + " \u{2014} "@ + o.cycle@
        + seq!['\n'] + "Timestamp: "@ + o.timestamp@ + seq!['\n'] + "Outcome: "@ + o.outcome@
        + seq!['\n'] + "Duration: "@ + spec_format_nat(o.duration_secs as nat) + "s"@ + seq!['\n']
        + (match o.num_turns {
        Some(t) => "Turns: "@ + spec_format_nat(t as nat) + seq!['\n'],
        None => Seq::empty(),
    }) + (match o.total_cost_micros {
        Some(c) => "Cost: $"@ + spec_usd4(c) + seq!['\n'],
        None => Seq::empty(),
    }) + (if o.files_changed.deep_view().len() > 0 {
        "Files changed: "@ + spec_join_comma(o.files_changed.deep_view(), 0) + seq!['\n']
    } else {
        Seq::empty()
    }) + (match o.permission_denial_count {
        Some(d) => if d > 0 {
            "Permission denials: "@ + spec_format_nat(d as nat) + seq!['\n']
        } else {
            Seq::empty()
        },
        None => Seq::empty(),
    }) + seq!['\n']
}

/// The full-context entries, one block per outcome.
pub open spec fn spec_full_entries(outcomes: Seq<CycleOutcome>, k: int) -> Seq<char>
    decreases outcomes.len() - k,
{
    if !(0 <= k < outcomes.len()) {
        Seq::empty()
    } else {
        spec_full_entry(outcomes[k]) + spec_full_entries(outcomes, k + 1)
    }
}

/// The full block: a header, a blank line, then the entries, or the
/// no-history note. The last entry's separator line is not emitted, matching
/// a join on newlines.
pub open spec fn spec_full_context(outcomes: Seq<CycleOutcome>) -> Seq<char> {
    "## Full Iteration History"@ + seq!['\n', '\n'] + (if outcomes.len() == 0 {
        "No previous iterations."@
    } else {
        spec_full_entries(outcomes, 0).drop_last()
    })
}

/// What `build_context` yields for a mode and history.
pub open spec fn spec_build_context(mode: ContextMode, outcomes: Seq<CycleOutcome>) -> Option<
    Seq<char>,
> {
    match mode {
        ContextMode::NoContext => None,
        ContextMode::Summaries => Some(spec_summaries_context(outcomes)),
        ContextMode::Full => Some(spec_full_context(outcomes)),
    }
}

/// Append one summary bullet.
fn push_summary_line(out: &mut Vec<char>, o: &CycleOutcome)
    ensures
        final(out)@ == old(out)@ + spec_summary_line(*o),
{
    push_str(out, "- Iteration ");
    push_u64(out, o.iteration as u64);
    push_str(out, " [");
    push_string(out, &o.cycle);
    push_str(out, "]: ");
    push_string(out, &o.outcome);
    proof {
        assert(out@ =~= old(out)@ + spec_summary_line(*o));
    }
}

/// Build the summaries block.
fn build_summaries_context(outcomes: &Vec<CycleOutcome>) -> (r: Vec<char>)
    ensures
        r@ == spec_summaries_context(outcomes@),
{
    let mut out: Vec<char> = Vec::new();
    push_str(&mut out, "## Previous Iteration Summaries");
    out.push('\n');
    out.push('\n');
    if outcomes.len() == 0 {
        push_str(&mut out, "No previous iterations.");
        proof {
            assert(out@ =~= spec_summaries_context(outcomes@));
        }
        return out;
    }
    let ghost base = out@;
    let mut k: usize = 0;
    while k < outcomes.len()
        invariant
            k <= outcomes@.len(),
            outcomes@.len() > 0,
            base + spec_summary_lines(outcomes@, 0) == out@ + (if k < outcomes@.len() {
                spec_summary_lines(outcomes@, k as int)
            } else {
                Seq::<char>::empty()
            }),
        decreases outcomes@.len() - k,
    {
        let ghost pre = out@;
        push_summary_line(&mut out, &outcomes[k]);
        if k + 1 < outcomes.len() {
            out.push('\n');
            proof {
                assert(spec_summary_lines(outcomes@, k as int) == spec_summary_line(
                    outcomes@[k as int],
                ) + seq!['\n'] + spec_summary_lines(outcomes@, k + 1));
                assert(out@ + spec_summary_lines(outcomes@, k + 1) =~= pre + spec_summary_lines(
                    outcomes@,
                    k as int,
                ));
            }
        } else {
            proof {
                assert(spec_summary_lines(outcomes@, k as int) == spec_summary_line(
                    outcomes@[k as int],
                ));
                assert(out@ =~= pre + spec_summary_lines(outcomes@, k as int));
            }
        }
        k = k + 1;
    }
    proof {
        assert(out@ =~= spec_summaries_context(outcomes@));
    }
    out
}

/// Append a dollar amount with four decimal places.
fn push_usd4(out: &mut Vec<char>, micros: u64)
    ensures
        final(out)@ == old(out)@ + spec_usd4(micros),
{
    push_u64(out, micros / 1000000);
    out.push('.');
    let frac: u64 = micros % 1000000;
    let digits = crate::text::format_u64(frac);
    let ghost p6 = spec_pad6(frac as nat);
    let mut four: Vec<char> = Vec::new();
    let mut z: usize = 0;
    let pad: usize = if digits.len() < 6 {
        6 - digits.len()
    } else {
        0
    };
    while z < pad && z < 4
        invariant
            z <= pad,
            z <= 4,
            pad == if digits@.len() < 6 { 6 - digits@.len() } else { 0int },
            p6 == spec_pad6(frac as nat),
            digits@ == spec_format_nat(frac as nat),
            four@ =~= p6.take(z as int),
        decreases 4 - z,
    {
        four.push('0');
        proof {
            assert(p6.take(z + 1) =~= p6.take(z as int).push(p6[z as int]));
            assert(p6[z as int] == '0');
        }
        z = z + 1;
    }
    let mut d: usize = 0;
    while z < 4
        invariant
            z <= 4,
            d == if z > pad { z - pad } else { 0int },
            z >= pad || z == 4,
            pad == if digits@.len() < 6 { 6 - digits@.len() } else { 0int },
            p6 == spec_pad6(frac as nat),
            digits@ == spec_format_nat(frac as nat),
            d <= digits@.len(),
            four@ =~= p6.take(z as int),
        decreases 4 - z,
    {
        proof {
            assert(p6[z as int] == digits@[d as int]);
            assert(p6.take(z + 1) =~= p6.take(z as int).push(p6[z as int]));
        }
        four.push(digits[d]);
        d = d + 1;
        z = z + 1;
    }
    push_chars(out, &four);
    proof {
        assert(four@ =~= p6.take(4));
        assert(out@ =~= old(out)@ + spec_usd4(micros));
    }
}

/// Append the comma-joined list.
pub fn push_join_comma_pub(out: &mut Vec<char>, items: &Vec<String>)
    ensures
        final(out)@ == old(out)@ + spec_join_comma(items.deep_view(), 0),
{
    let ghost base = out@;
    let mut k: usize = 0;
    while k < items.len()
        invariant
            k <= items@.len(),
            base + spec_join_comma(items.deep_view(), 0) == out@ + (if k < items@.len() {
                spec_join_comma(items.deep_view(), k as int)
            } else {
                Seq::<char>::empty()
            }),
        decreases items@.len() - k,
    {
        let ghost pre = out@;
        push_string(out, &items[k]);
        proof {
            assert(items.deep_view()[k as int] == items@[k as int]@);
        }
        if k + 1 < items.len() {
            push_str(out, ", ");
            proof {
                assert(out@ + spec_join_comma(items.deep_view(), k + 1) =~= pre + spec_join_comma(
                    items.deep_view(),
                    k as int,
                ));
            }
        } else {
            proof {
                assert(out@ =~= pre + spec_join_comma(items.deep_view(), k as int));
            }
        }
        k = k + 1;
    }
    proof {
        if items@.len() == 0 {
            assert(spec_join_comma(items.deep_view(), 0) =~= Seq::<char>::empty());
            assert(out@ =~= base + spec_join_comma(items.deep_view(), 0));
        }
    }
}

/// The fixed first four lines of a full-context entry.
pub open spec fn spec_full_entry_head(o: CycleOutcome) -> Seq<char> {
    "### Iteration "@ + spec_format_nat(o.iteration as nat) + " \u{2014} "@ + o.cycle@
        + seq!['\n'] + "Timestamp: "@ + o.timestamp@ + seq!['\n'] + "Outcome: "@ + o.outcome@
        + seq!['\n'] + "Duration: "@ + spec_format_nat(o.duration_secs as nat) + "s"@ + seq!['\n']
}

/// Append the fixed first four lines of a full-context entry.
fn push_full_head(out: &mut Vec<char>, o: &CycleOutcome)
    ensures
        final(out)@ == old(out)@ + spec_full_entry_head(*o),
{
    push_str(out, "### Iteration ");
    push_u64(out, o.iteration as u64);
    push_str(out, " \u{2014} ");
    push_string(out, &o.cycle);
    out.push('\n');
    push_str(out, "Timestamp: ");
    push_string(out, &o.timestamp);
    out.push('\n');
    push_str(out, "Outcome: ");
    push_string(out, &o.outcome);
    out.push('\n');
    push_str(out, "Duration: ");
    push_u64(out, o.duration_secs);
    push_str(out, "s");
    out.push('\n');
    proof {
        assert(out@ =~= old(out)@ + spec_full_entry_head(*o));
    }
}

/// Append one full-context entry.
#[verifier::rlimit(100)]
#[verifier::spinoff_prover]
fn push_full_entry(out: &mut Vec<char>, o: &CycleOutcome)
    ensures
        final(out)@ == old(out)@ + spec_full_entry(*o),
{
    push_full_head(out, o);
    let ghost head = out@;
    proof {
        assert(spec_full_entry(*o) =~= spec_full_entry_head(*o) + (match o.num_turns {
            Some(t) => "Turns: "@ + spec_format_nat(t as nat) + seq!['\n'],
            None => Seq::<char>::empty(),
        }) + (match o.total_cost_micros {
            Some(c) => "Cost: $"@ + spec_usd4(c) + seq!['\n'],
            None => Seq::<char>::empty(),
        }) + (if o.files_changed.deep_view().len() > 0 {
            "Files changed: "@ + spec_join_comma(o.files_changed.deep_view(), 0) + seq!['\n']
        } else {
            Seq::<char>::empty()
        }) + (match o.permission_denial_count {
            Some(d) => if d > 0 {
                "Permission denials: "@ + spec_format_nat(d as nat) + seq!['\n']
            } else {
                Seq::<char>::empty()
            },
            None => Seq::<char>::empty(),
        }) + seq!['\n']);
    }
    match o.num_turns {
        Some(t) => {
            push_str(out, "Turns: ");
            push_u64(out, t as u64);
            out.push('\n');
        },
        None => {},
    }
    let ghost with_turns = out@;
    proof {
        assert(with_turns =~= head + (match o.num_turns {
            Some(t) => "Turns: "@ + spec_format_nat(t as nat) + seq!['\n'],
            None => Seq::<char>::empty(),
        }));
    }
    match o.total_cost_micros {
        Some(c) => {
            push_str(out, "Cost: $");
            push_usd4(out, c);
            out.push('\n');
        },
        None => {},
    }
    let ghost with_cost = out@;
    proof {
        assert(with_cost =~= with_turns + (match o.total_cost_micros {
            Some(c) => "Cost: $"@ + spec_usd4(c) + seq!['\n'],
            None => Seq::<char>::empty(),
        }));
    }
    if o.files_changed.len() > 0 {
        push_str(out, "Files changed: ");
        push_join_comma_pub(out, &o.files_changed);
        out.push('\n');
    }
    let ghost with_files = out@;
    proof {
        assert(o.files_changed.deep_view().len() == o.files_changed@.len());
        assert(with_files =~= with_cost + (if o.files_changed.deep_view().len() > 0 {
            "Files changed: "@ + spec_join_comma(o.files_changed.deep_view(), 0) + seq!['\n']
        } else {
            Seq::<char>::empty()
        }));
    }
    match o.permission_denial_count {
        Some(d) => {
            if d > 0 {
                push_str(out, "Permission denials: ");
                push_u64(out, d as u64);
                out.push('\n');
            }
        },
        None => {},
    }
    let ghost with_denials = out@;
    proof {
        assert(with_denials =~= with_files + (match o.permission_denial_count {
            Some(d) => if d > 0 {
                "Permission denials: "@ + spec_format_nat(d as nat) + seq!['\n']
            } else {
                Seq::<char>::empty()
            },
            None => Seq::<char>::empty(),
        }));
    }
    out.push('\n');
    proof {
        assert(out@ =~= old(out)@ + spec_full_entry(*o));
    }
}

/// Build the full block.
fn build_full_context(outcomes: &Vec<CycleOutcome>) -> (r: Vec<char>)
    ensures
        r@ == spec_full_context(outcomes@),
{
    let mut out: Vec<char> = Vec::new();
    push_str(&mut out, "## Full Iteration History");
    out.push('\n');
    out.push('\n');
    if outcomes.len() == 0 {
        push_str(&mut out, "No previous iterations.");
        proof {
            assert(out@ =~= spec_full_context(outcomes@));
        }
        return out;
    }
    let ghost base = out@;
    let mut k: usize = 0;
    while k < outcomes.len()
        invariant
            k <= outcomes@.len(),
            out@ == base + spec_full_entries(outcomes@, 0).take(
                spec_full_entries(outcomes@, 0).len() - spec_full_entries(
                    outcomes@,
                    k as int,
                ).len(),
            ),
            spec_full_entries(outcomes@, 0).len() >= spec_full_entries(outcomes@, k as int).len(),
            spec_full_entries(outcomes@, 0) == spec_full_entries(outcomes@, 0).take(
                spec_full_entries(outcomes@, 0).len() - spec_full_entries(
                    outcomes@,
                    k as int,
                ).len(),
            ) + spec_full_entries(outcomes@, k as int),
        decreases outcomes@.len() - k,
    {
        let ghost pre = out@;
        push_full_entry(&mut out, &outcomes[k]);
        proof {
            assert(spec_full_entries(outcomes@, k as int) == spec_full_entry(outcomes@[k as int])
                + spec_full_entries(outcomes@, k + 1));
            let all = spec_full_entries(outcomes@, 0);
            let tk = spec_full_entries(outcomes@, k as int);
            let tk1 = spec_full_entries(outcomes@, k + 1);
            assert(all.take(all.len() - tk1.len()) =~= all.take(all.len() - tk.len())
                + spec_full_entry(outcomes@[k as int]));
            assert(all =~= all.take(all.len() - tk1.len()) + tk1);
        }
        k = k + 1;
    }
    proof {
        assert(spec_full_entries(outcomes@, outcomes@.len() as int) =~= Seq::<char>::empty());
        assert(out@ =~= base + spec_full_entries(outcomes@, 0));
    }
    // the final separator newline is not part of the joined block
    let ghost whole = out@;
    proof {
        lemma_full_entries_end_nl(outcomes@, 0);
        assert(out@.len() > base.len());
        assert(out@.last() == '\n');
    }
    let mut out = out;
    let dropped = out.pop();
    proof {
        assert(out@ =~= whole.drop_last());
        assert(base + spec_full_entries(outcomes@, 0).drop_last() =~= (base + spec_full_entries(
            outcomes@,
            0,
        )).drop_last());
        assert(out@ =~= spec_full_context(outcomes@));
    }
    out
}

/// Every non-empty run of entries ends in a newline.
proof fn lemma_full_entries_end_nl(outcomes: Seq<CycleOutcome>, k: int)
    requires
        0 <= k < outcomes.len(),
    ensures
        spec_full_entries(outcomes, k).len() > 0,
        spec_full_entries(outcomes, k).last() == '\n',
    decreases outcomes.len() - k,
{
    if k == outcomes.len() - 1 {
        assert(spec_full_entries(outcomes, k + 1) =~= Seq::<char>::empty());
        assert(spec_full_entries(outcomes, k) =~= spec_full_entry(outcomes[k]));
        assert(spec_full_entry(outcomes[k]).last() == '\n');
    } else {
        lemma_full_entries_end_nl(outcomes, k + 1);
    }
}

/// Build a context block for the mode, or nothing when the mode asks for
/// none.
pub fn build_context(mode: &ContextMode, outcomes: &Vec<CycleOutcome>) -> (r: Option<String>)
    ensures
        match r {
            Some(s) => spec_build_context(*mode, outcomes@) == Some(s@),
            None => spec_build_context(*mode, outcomes@) is None,
        },
{
    match mode {
        ContextMode::NoContext => None,
        ContextMode::Summaries => {
            let v = build_summaries_context(outcomes);
            Some(string_from_chars(&v))
        },
        ContextMode::Full => {
            let v = build_full_context(outcomes);
            Some(string_from_chars(&v))
        },
    }
}

/// The prompt with a context block put in front, separated by a rule.
pub open spec fn spec_inject_context(prompt: Seq<char>, context: Option<Seq<char>>) -> Seq<char> {
    match context {
        Some(block) => block + "\n\n---\n\n"@ + prompt,
        None => prompt,
    }
}

/// Prepend a context block to a prompt.
pub fn inject_context(prompt: &str, context: Option<String>) -> (r: String)
    ensures
        r@ == spec_inject_context(prompt@, match context {
            Some(ref b) => Some(b@),
            None => None,
        }),
{
    match context {
        Some(block) => {
            let mut out: Vec<char> = Vec::new();
            push_string(&mut out, &block);
            push_str(&mut out, "\n\n---\n\n");
            push_str(&mut out, prompt);
            proof {
                assert(out@ =~= block@ + "\n\n---\n\n"@ + prompt@);
            }
            string_from_chars(&out)
        },
        None => prompt.to_owned(),
    }
}

} // verus!
