//! The cycle selector's summaries, task list, prompt and response parsing.
//!
//! Invoking the agent belongs to the caller; everything that summarizes,
//! composes or parses is here.

use vstd::prelude::*;

use crate::config::FlowConfig;
use crate::json::{spec_get, spec_parse_json, Json, JsonSpec, obj_get, parse_json};
use crate::outcome::CycleOutcome;
use crate::progress::spec_bump_count;
use crate::text::{
    spec_contains_seq, spec_format_nat, spec_lines, spec_starts_with, spec_trimmed,
    view_pairs_u32, chars_of, contains_seq, eq_chars, push_str, push_string, push_u64,
    slice_range, string_from_chars, trimmed_of,
};

verus! {

/// A pending task read from the task file.
pub struct TodoTask {
    /// Its priority tag.
    pub priority: String,
    /// Its description.
    pub description: String,
}

/// The pending tasks of the file, in order: an unchecked `- [ ]` line with
/// a non-empty description, paired with a priority found on one of the next
/// five lines before the next task line.
pub open spec fn spec_todo_tasks(lines: Seq<Seq<char>>, k: int) -> Seq<(Seq<char>, Seq<char>)>
    decreases lines.len() - k,
{
    if !(0 <= k < lines.len()) {
        Seq::empty()
    } else {
        let t = spec_trimmed(lines[k]);
        (if spec_starts_with(t, "- [ ] "@) && spec_trimmed(
            t.subrange(6, t.len() as int),
        ).len() > 0 {
            match spec_lookahead(lines, k + 1, k + 6) {
                Some(p) => seq![(spec_trimmed(t.subrange(6, t.len() as int)), p)],
                None => Seq::empty(),
            }
        } else {
            Seq::empty()
        }) + spec_todo_tasks(lines, k + 1)
    }
}

/// Scan ahead for a priority annotation, stopping at the next task line.
pub open spec fn spec_lookahead(lines: Seq<Seq<char>>, j: int, end: int) -> Option<Seq<char>>
    decreases end - j,
{
    if !(0 <= j < lines.len()) || j >= end {
        None
    } else {
        let la = spec_trimmed(lines[j]);
        if spec_starts_with(la, "- ["@) {
            None
        } else if spec_starts_with(la, "- Priority:"@) {
            Some(spec_trimmed(la.subrange(11, la.len() as int)))
        } else if spec_starts_with(la, "Priority:"@) {
            Some(spec_trimmed(la.subrange(9, la.len() as int)))
        } else {
            spec_lookahead(lines, j + 1, end)
        }
    }
}

/// The viewed pairs of a task list.
pub open spec fn view_tasks(tasks: Seq<TodoTask>) -> Seq<(Seq<char>, Seq<char>)> {
    tasks.map_values(|t: TodoTask| (t.description@, t.priority@))
}

/// Trim the text after a prefix of `n` characters.
fn tail_trimmed(t: &Vec<char>, n: usize) -> (r: Vec<char>)
    requires
        n <= t@.len(),
    ensures
        r@ == spec_trimmed(t@.subrange(n as int, t@.len() as int)),
{
    let sub = slice_range(t, n, t.len());
    trimmed_of(&sub)
}

/// Parse the task file: unchecked `- [ ]` entries with a nearby priority.
#[verifier::rlimit(60)]
pub fn parse_todo_tasks(content: &str) -> (r: Vec<TodoTask>)
    ensures
        view_tasks(r@) == spec_todo_tasks(spec_lines(content@), 0),
{
    let chars = chars_of(content);
    let lines = crate::text::split_lines(&chars);
    let ghost lv = lines.deep_view();
    proof {
        assert(lv == spec_lines(content@));
    }
    let task_prefix = chars_of("- [ ] ");
    let next_prefix = chars_of("- [");
    let dash_priority = chars_of("- Priority:");
    let bare_priority = chars_of("Priority:");
    proof {
        reveal_strlit("- [ ] ");
        reveal_strlit("- [");
        reveal_strlit("- Priority:");
        reveal_strlit("Priority:");
        assert("- [ ] "@.len() == 6);
        assert("- Priority:"@.len() == 11);
        assert("Priority:"@.len() == 9);
    }
    let mut out: Vec<TodoTask> = Vec::new();
    proof {
        assert(view_tasks(out@) =~~= Seq::<(Seq<char>, Seq<char>)>::empty());
    }
    let mut k: usize = 0;
    while k < lines.len()
        invariant
            k <= lines@.len(),
            lv == lines.deep_view(),
            lv.len() == lines@.len(),
            task_prefix@ == "- [ ] "@ && next_prefix@ == "- ["@ && dash_priority@
                == "- Priority:"@ && bare_priority@ == "Priority:"@,
            view_tasks(out@) + spec_todo_tasks(lv, k as int) == spec_todo_tasks(lv, 0),
        decreases lines@.len() - k,
    {
        let ghost pre = view_tasks(out@);
        proof {
            assert(lv[k as int] == lines@[k as int]@);
        }
        let t = trimmed_of(&lines[k]);
        let mut emitted = false;
        if crate::text::starts_with(&t, &task_prefix) {
            let desc = tail_trimmed(&t, 6);
            if desc.len() > 0 {
                // look ahead for a priority annotation
                let mut j: usize = k + 1;
                let mut prio: Option<Vec<char>> = None;
                let mut stopped = false;
                while j < lines.len() && j - k <= 5 && !stopped && prio.is_none()
                    invariant
                        k + 1 <= j <= k + 6,
                        lv == lines.deep_view(),
                        lv.len() == lines@.len(),
                        next_prefix@ == "- ["@ && dash_priority@ == "- Priority:"@
                            && bare_priority@ == "Priority:"@,
                        match prio {
                            Some(p) => spec_lookahead(lv, k + 1, k + 6) == Some(p@) && stopped
                                == false,
                            None => if stopped {
                                spec_lookahead(lv, k + 1, k + 6) is None
                            } else {
                                spec_lookahead(lv, k + 1, k + 6) == spec_lookahead(
                                    lv,
                                    j as int,
                                    k + 6,
                                )
                            },
                        },
                    decreases k + 6 - j,
                {
                    proof {
                        assert(lv[j as int] == lines@[j as int]@);
                    }
                    let la = trimmed_of(&lines[j]);
                    if crate::text::starts_with(&la, &next_prefix) {
                        stopped = true;
                    } else if crate::text::starts_with(&la, &dash_priority) {
                        prio = Some(tail_trimmed(&la, 11));
                    } else if crate::text::starts_with(&la, &bare_priority) {
                        prio = Some(tail_trimmed(&la, 9));
                    }
                    if !stopped && prio.is_none() {
                        j = j + 1;
                    } else if stopped {
                        proof {
                            assert(spec_lookahead(lv, j as int, k + 6) is None);
                        }
                        j = j + 1;
                    } else {
                        j = j + 1;
                    }
                }
                proof {
                    if !stopped && prio.is_none() {
                        assert(spec_lookahead(lv, j as int, k + 6) is None);
                    }
                }
                match prio {
                    Some(p) => {
                        out.push(
                            TodoTask {
                                priority: string_from_chars(&p),
                                description: string_from_chars(&desc),
                            },
                        );
                        emitted = true;
                        proof {
                            assert(view_tasks(out@) =~~= pre.push((desc@, p@)));
                        }
                    },
                    None => {},
                }
            }
        }
        proof {
            if emitted {
                assert(view_tasks(out@) + spec_todo_tasks(lv, k + 1) =~~= pre + spec_todo_tasks(
                    lv,
                    k as int,
                ));
            } else {
                assert(spec_todo_tasks(lv, k as int) =~~= Seq::<(Seq<char>, Seq<char>)>::empty()
                    + spec_todo_tasks(lv, k + 1));
            }
        }
        k = k + 1;
    }
    proof {
        assert(spec_todo_tasks(lv, lv.len() as int) =~~= Seq::<(Seq<char>, Seq<char>)>::empty());
        assert(view_tasks(out@) =~~= view_tasks(out@) + spec_todo_tasks(lv, lv.len() as int));
    }
    out
}

/// The descriptions with this priority, in order.
pub open spec fn spec_descs_with(tasks: Seq<(Seq<char>, Seq<char>)>, p: Seq<char>) -> Seq<
    Seq<char>,
>
    decreases tasks.len(),
{
    if tasks.len() == 0 {
        Seq::empty()
    } else {
        spec_descs_with(tasks.drop_last(), p) + (if tasks.last().1 == p {
            seq![tasks.last().0]
        } else {
            Seq::empty()
        })
    }
}

/// The lines of one priority group: a header and one bullet per task.
pub open spec fn spec_group_lines(tasks: Seq<(Seq<char>, Seq<char>)>, p: Seq<char>) -> Seq<
    Seq<char>,
> {
    let descs = spec_descs_with(tasks, p);
    if descs.len() == 0 {
        Seq::empty()
    } else {
        seq![p + ": "@ + spec_format_nat(descs.len()) + " task(s)"@] + descs.map_values(
            |d: Seq<char>| "  - "@ + d,
        )
    }
}

/// Lines joined by newlines.
pub open spec fn spec_join_nl(lines: Seq<Seq<char>>, k: int) -> Seq<char>
    decreases lines.len() - k,
{
    if !(0 <= k < lines.len()) {
        Seq::empty()
    } else if k == lines.len() - 1 {
        lines[k]
    } else {
        lines[k] + seq!['\n'] + spec_join_nl(lines, k + 1)
    }
}

/// The task summary: the note when nothing is pending, else the groups for
/// the four priorities in order.
pub open spec fn spec_todo_summary(tasks: Seq<(Seq<char>, Seq<char>)>) -> Seq<char> {
    if tasks.len() == 0 {
        "No pending tasks found in TODO.md"@
    } else {
        spec_join_nl(
            spec_group_lines(tasks, "P0"@) + spec_group_lines(tasks, "P1"@) + spec_group_lines(
                tasks,
                "P2"@,
            ) + spec_group_lines(tasks, "P3"@),
            0,
        )
    }
}

/// Collect the descriptions carrying a priority.
fn descs_with(tasks: &Vec<TodoTask>, p: &str) -> (r: Vec<String>)
    ensures
        r.deep_view() == spec_descs_with(view_tasks(tasks@), p@),
{
    let target = chars_of(p);
    let ghost tv = view_tasks(tasks@);
    let mut out: Vec<String> = Vec::new();
    let mut k: usize = 0;
    proof {
        assert(out.deep_view() =~~= Seq::<Seq<char>>::empty());
        assert(tv.take(0) =~= Seq::<(Seq<char>, Seq<char>)>::empty());
    }
    while k < tasks.len()
        invariant
            k <= tasks@.len(),
            tv == view_tasks(tasks@),
            tv.len() == tasks@.len(),
            target@ == p@,
            out.deep_view() == spec_descs_with(tv.take(k as int), p@),
        decreases tasks@.len() - k,
    {
        proof {
            assert(tv.take(k + 1).drop_last() =~= tv.take(k as int));
            assert(tv.take(k + 1).last() == tv[k as int]);
        }
        let tp = chars_of(tasks[k].priority.as_str());
        if eq_chars(&tp, &target) {
            let ghost pre = out.deep_view();
            out.push(crate::stream::clone_string(&tasks[k].description));
            proof {
                assert(out.deep_view() =~~= pre.push(tv[k as int].0));
            }
        }
        k = k + 1;
    }
    proof {
        assert(tv.take(tv.len() as int) =~= tv);
    }
    out
}

/// Append one priority group's lines.
fn push_group(lines: &mut Vec<String>, tasks: &Vec<TodoTask>, p: &str)
    ensures
        final(lines).deep_view() == old(lines).deep_view() + spec_group_lines(
            view_tasks(tasks@),
            p@,
        ),
{
    let descs = descs_with(tasks, p);
    if descs.len() == 0 {
        proof {
            assert(old(lines).deep_view() + spec_group_lines(view_tasks(tasks@), p@)
                =~~= old(lines).deep_view());
        }
        return ;
    }
    let mut header: Vec<char> = Vec::new();
    push_str(&mut header, p);
    push_str(&mut header, ": ");
    push_u64(&mut header, descs.len() as u64);
    push_str(&mut header, " task(s)");
    let ghost pre = lines.deep_view();
    lines.push(string_from_chars(&header));
    proof {
        assert(lines.deep_view() =~~= pre.push(
            p@ + ": "@ + spec_format_nat(spec_descs_with(view_tasks(tasks@), p@).len())
                + " task(s)"@,
        ));
    }
    let ghost mid = lines.deep_view();
    let mut k: usize = 0;
    while k < descs.len()
        invariant
            k <= descs@.len(),
            descs.deep_view() == spec_descs_with(view_tasks(tasks@), p@),
            lines.deep_view() == mid + descs.deep_view().take(k as int).map_values(
                |d: Seq<char>| "  - "@ + d,
            ),
        decreases descs@.len() - k,
    {
        let ghost before = lines.deep_view();
        let mut b: Vec<char> = Vec::new();
        push_str(&mut b, "  - ");
        push_string(&mut b, &descs[k]);
        lines.push(string_from_chars(&b));
        proof {
            assert(lines.deep_view() =~~= before.push("  - "@ + descs.deep_view()[k as int]));
            assert(descs.deep_view().take(k + 1).map_values(|d: Seq<char>| "  - "@ + d)
                =~~= descs.deep_view().take(k as int).map_values(|d: Seq<char>| "  - "@ + d).push(
                "  - "@ + descs.deep_view()[k as int],
            ));
        }
        k = k + 1;
    }
    proof {
        assert(descs.deep_view().take(descs.deep_view().len() as int) =~= descs.deep_view());
        assert(lines.deep_view() =~~= old(lines).deep_view() + spec_group_lines(
            view_tasks(tasks@),
            p@,
        ));
    }
}

/// Join line strings with newlines.
pub fn join_lines(lines: &Vec<String>) -> (r: String)
    ensures
        r@ == spec_join_nl(lines.deep_view(), 0),
{
    let mut out: Vec<char> = Vec::new();
    let ghost lv = lines.deep_view();
    let mut k: usize = 0;
    while k < lines.len()
        invariant
            k <= lines@.len(),
            lv == lines.deep_view(),
            lv.len() == lines@.len(),
            spec_join_nl(lv, 0) == out@ + (if k < lv.len() {
                spec_join_nl(lv, k as int)
            } else {
                Seq::<char>::empty()
            }),
        decreases lines@.len() - k,
    {
        let ghost pre = out@;
        push_string(&mut out, &lines[k]);
        if k + 1 < lines.len() {
            out.push('\n');
            proof {
                assert(out@ + spec_join_nl(lv, k + 1) =~= pre + spec_join_nl(lv, k as int));
            }
        } else {
            proof {
                assert(out@ =~= pre + spec_join_nl(lv, k as int));
            }
        }
        k = k + 1;
    }
    proof {
        if lv.len() == 0 {
            assert(spec_join_nl(lv, 0) =~= Seq::<char>::empty());
            assert(out@ =~= spec_join_nl(lv, 0));
        }
    }
    string_from_chars(&out)
}

/// Format the pending tasks grouped by priority.
pub fn format_todo_summary(tasks: &Vec<TodoTask>) -> (r: String)
    ensures
        r@ == spec_todo_summary(view_tasks(tasks@)),
{
    if tasks.len() == 0 {
        proof {
            assert(view_tasks(tasks@).len() == 0);
        }
        return "No pending tasks found in TODO.md".to_owned();
    }
    let mut lines: Vec<String> = Vec::new();
    proof {
        assert(lines.deep_view() =~~= Seq::<Seq<char>>::empty());
    }
    push_group(&mut lines, tasks, "P0");
    push_group(&mut lines, tasks, "P1");
    push_group(&mut lines, tasks, "P2");
    push_group(&mut lines, tasks, "P3");
    proof {
        let tv = view_tasks(tasks@);
        assert(lines.deep_view() =~~= spec_group_lines(tv, "P0"@) + spec_group_lines(tv, "P1"@)
            + spec_group_lines(tv, "P2"@) + spec_group_lines(tv, "P3"@));
    }
    join_lines(&lines)
}

// --- the log summary ---

/// One recent outcome in compact form.
pub struct RecentOutcome {
    /// Iteration number.
    pub iteration: u32,
    /// Cycle name.
    pub cycle: String,
    /// Whether the outcome counts as successful.
    pub success: bool,
    /// The outcome text.
    pub outcome: String,
}

/// A compact summary of the history log.
pub struct LogSummary {
    /// The largest iteration number in the log.
    pub total_iterations: u32,
    /// Executions per cycle, in first-seen order.
    pub cycle_counts: Vec<(String, u32)>,
    /// Successful executions per cycle, in first-seen order of success.
    pub cycle_success_counts: Vec<(String, u32)>,
    /// Total cost across the log, in micro-dollars, saturating.
    pub total_cost_micros: u64,
    /// The most recent outcomes, newest first.
    pub recent_outcomes: Vec<RecentOutcome>,
}

/// The largest iteration number.
pub open spec fn spec_max_iter(log: Seq<CycleOutcome>) -> u32
    decreases log.len(),
{
    if log.len() == 0 {
        0
    } else if log.last().iteration > spec_max_iter(log.drop_last()) {
        log.last().iteration
    } else {
        spec_max_iter(log.drop_last())
    }
}

/// Executions per cycle, by repeated bumping.
pub open spec fn spec_log_counts(log: Seq<CycleOutcome>) -> Seq<(Seq<char>, u32)>
    decreases log.len(),
{
    if log.len() == 0 {
        Seq::empty()
    } else {
        spec_bump_count(spec_log_counts(log.drop_last()), log.last().cycle@)
    }
}

/// Successful executions per cycle.
pub open spec fn spec_log_successes(log: Seq<CycleOutcome>) -> Seq<(Seq<char>, u32)>
    decreases log.len(),
{
    if log.len() == 0 {
        Seq::empty()
    } else if crate::outcome::spec_outcome_failed(log.last()) {
        spec_log_successes(log.drop_last())
    } else {
        spec_bump_count(spec_log_successes(log.drop_last()), log.last().cycle@)
    }
}

/// The saturating total cost.
pub open spec fn spec_log_cost(log: Seq<CycleOutcome>) -> nat
    decreases log.len(),
{
    if log.len() == 0 {
        0
    } else {
        let c: nat = match log.last().total_cost_micros {
            Some(c) => c as nat,
            None => 0,
        };
        if spec_log_cost(log.drop_last()) + c > u64::MAX {
            u64::MAX as nat
        } else {
            spec_log_cost(log.drop_last()) + c
        }
    }
}

/// The viewed recent outcomes.
pub open spec fn view_recent(r: Seq<RecentOutcome>) -> Seq<(u32, Seq<char>, bool, Seq<char>)> {
    r.map_values(|o: RecentOutcome| (o.iteration, o.cycle@, o.success, o.outcome@))
}

/// The last `n` outcomes, newest first.
pub open spec fn spec_recent(log: Seq<CycleOutcome>, n: int, k: int) -> Seq<
    (u32, Seq<char>, bool, Seq<char>),
>
    decreases k,
{
    if k <= 0 || k > log.len() || n <= 0 {
        Seq::empty()
    } else {
        seq![
            (
                log[k - 1].iteration,
                log[k - 1].cycle@,
                !crate::outcome::spec_outcome_failed(log[k - 1]),
                log[k - 1].outcome@,
            ),
        ] + spec_recent(log, n - 1, k - 1)
    }
}

/// Summarize the log: the largest iteration, per-cycle counts and success
/// counts, the saturating total cost, and the last `max_recent` outcomes
/// newest first.
pub fn summarize_log(log: &Vec<CycleOutcome>, max_recent: usize) -> (r: LogSummary)
    ensures
        r.total_iterations == spec_max_iter(log@),
        view_pairs_u32(r.cycle_counts@) == spec_log_counts(log@),
        view_pairs_u32(r.cycle_success_counts@) == spec_log_successes(log@),
        r.total_cost_micros as nat == spec_log_cost(log@),
        view_recent(r.recent_outcomes@) == spec_recent(
            log@,
            max_recent as int,
            log@.len() as int,
        ),
{
    let mut total_iterations: u32 = 0;
    let mut cycle_counts: Vec<(String, u32)> = Vec::new();
    let mut cycle_success_counts: Vec<(String, u32)> = Vec::new();
    let mut total_cost: u64 = 0;
    proof {
        assert(view_pairs_u32(cycle_counts@) =~= Seq::<(Seq<char>, u32)>::empty());
        assert(view_pairs_u32(cycle_success_counts@) =~= Seq::<(Seq<char>, u32)>::empty());
        assert(log@.take(0) =~= Seq::<CycleOutcome>::empty());
    }
    let mut k: usize = 0;
    while k < log.len()
        invariant
            k <= log@.len(),
            total_iterations == spec_max_iter(log@.take(k as int)),
            view_pairs_u32(cycle_counts@) == spec_log_counts(log@.take(k as int)),
            view_pairs_u32(cycle_success_counts@) == spec_log_successes(log@.take(k as int)),
            total_cost as nat == spec_log_cost(log@.take(k as int)),
        decreases log@.len() - k,
    {
        proof {
            assert(log@.take(k + 1).drop_last() =~= log@.take(k as int));
            assert(log@.take(k + 1).last() == log@[k as int]);
        }
        if log[k].iteration > total_iterations {
            total_iterations = log[k].iteration;
        }
        crate::progress::bump_cycle_count(&mut cycle_counts, log[k].cycle.as_str());
        let oc = chars_of(log[k].outcome.as_str());
        let failed = crate::text::starts_with(&oc, &chars_of("Failed"));
        if !failed {
            crate::progress::bump_cycle_count(&mut cycle_success_counts, log[k].cycle.as_str());
        }
        let cost: u64 = match log[k].total_cost_micros {
            Some(c) => c,
            None => 0,
        };
        total_cost = crate::executor::sat_add_u64(total_cost, cost);
        k = k + 1;
    }
    proof {
        assert(log@.take(log@.len() as int) =~= log@);
    }
    let mut recent: Vec<RecentOutcome> = Vec::new();
    proof {
        assert(view_recent(recent@) =~= Seq::<(u32, Seq<char>, bool, Seq<char>)>::empty());
    }
    let mut back: usize = log.len();
    let mut left: usize = max_recent;
    while back > 0 && left > 0
        invariant
            back <= log@.len(),
            left <= max_recent,
            max_recent - left == log@.len() - back || left == 0,
            spec_recent(log@, max_recent as int, log@.len() as int) == view_recent(recent@)
                + spec_recent(log@, left as int, back as int),
        decreases back,
    {
        let ghost pre = view_recent(recent@);
        let oc = chars_of(log[back - 1].outcome.as_str());
        let failed = crate::text::starts_with(&oc, &chars_of("Failed"));
        recent.push(
            RecentOutcome {
                iteration: log[back - 1].iteration,
                cycle: crate::stream::clone_string(&log[back - 1].cycle),
                success: !failed,
                outcome: crate::stream::clone_string(&log[back - 1].outcome),
            },
        );
        proof {
            assert(view_recent(recent@) =~= pre.push(
                (
                    log@[back - 1].iteration,
                    log@[back - 1].cycle@,
                    !crate::outcome::spec_outcome_failed(log@[back - 1]),
                    log@[back - 1].outcome@,
                ),
            ));
            assert(pre + (seq![
                (
                    log@[back - 1].iteration,
                    log@[back - 1].cycle@,
                    !crate::outcome::spec_outcome_failed(log@[back - 1]),
                    log@[back - 1].outcome@,
                ),
            ] + spec_recent(log@, left - 1, back - 1)) =~= view_recent(recent@) + spec_recent(
                log@,
                left - 1,
                back - 1,
            ));
        }
        back = back - 1;
        left = left - 1;
    }
    proof {
        assert(spec_recent(log@, left as int, back as int) =~= Seq::<
            (u32, Seq<char>, bool, Seq<char>),
        >::empty());
        assert(view_recent(recent@) =~= view_recent(recent@) + spec_recent(
            log@,
            left as int,
            back as int,
        ));
    }
    LogSummary {
        total_iterations,
        cycle_counts,
        cycle_success_counts,
        total_cost_micros: total_cost,
        recent_outcomes: recent,
    }
}

/// The first-match count for a name, zero when absent.
pub open spec fn spec_count_of(pairs: Seq<(Seq<char>, u32)>, name: Seq<char>) -> u32 {
    crate::router::spec_visit_count(pairs, name)
}

/// The success percentage, rounded half up; zero for no runs.
pub open spec fn spec_percent(successes: u32, count: u32) -> nat {
    if count == 0 {
        0
    } else {
        ((successes * 100 + count as int / 2) / count as int) as nat
    }
}

/// One cycle's balance part: `name=count (pct% success)`.
pub open spec fn spec_balance_part(
    summary_counts: Seq<(Seq<char>, u32)>,
    summary_successes: Seq<(Seq<char>, u32)>,
    name: Seq<char>,
) -> Seq<char> {
    let count = spec_count_of(summary_counts, name);
    let succ = spec_count_of(summary_successes, name);
    name + "="@ + spec_format_nat(count as nat) + " ("@ + spec_format_nat(
        spec_percent(succ, count),
    ) + "% success)"@
}

/// The balance parts for every configured cycle, comma-joined.
pub open spec fn spec_balance_parts(
    cycles: Seq<crate::config::CycleConfig>,
    counts: Seq<(Seq<char>, u32)>,
    successes: Seq<(Seq<char>, u32)>,
    k: int,
) -> Seq<char>
    decreases cycles.len() - k,
{
    if !(0 <= k < cycles.len()) {
        Seq::empty()
    } else {
        let head = spec_balance_part(counts, successes, cycles[k].name@);
        if k == cycles.len() - 1 {
            head
        } else {
            head + ", "@ + spec_balance_parts(cycles, counts, successes, k + 1)
        }
    }
}

/// One recent line: `  #<n> <cycle> [ok|FAIL]: <outcome>`.
pub open spec fn spec_recent_line(o: (u32, Seq<char>, bool, Seq<char>)) -> Seq<char> {
    "  #"@ + spec_format_nat(o.0 as nat) + " "@ + o.1 + " ["@ + (if o.2 {
        "ok"@
    } else {
        "FAIL"@
    }) + "]: "@ + o.3
}

/// The recent block, one line per outcome.
pub open spec fn spec_recent_lines(rs: Seq<(u32, Seq<char>, bool, Seq<char>)>, k: int) -> Seq<
    char,
>
    decreases rs.len() - k,
{
    if !(0 <= k < rs.len()) {
        Seq::empty()
    } else {
        seq!['\n'] + spec_recent_line(rs[k]) + spec_recent_lines(rs, k + 1)
    }
}

/// The formatted log summary: totals, the per-cycle balance, and the
/// recent outcomes when any exist.
pub open spec fn spec_log_summary_text(
    s_total: u32,
    s_cost: u64,
    counts: Seq<(Seq<char>, u32)>,
    successes: Seq<(Seq<char>, u32)>,
    recent: Seq<(u32, Seq<char>, bool, Seq<char>)>,
    cycles: Seq<crate::config::CycleConfig>,
) -> Seq<char> {
    "Total iterations: "@ + spec_format_nat(s_total as nat) + " | Total cost: $"@
        + crate::display::spec_usd2(s_cost) + "
Cycle balance: "@ + spec_balance_parts(
        cycles,
        counts,
        successes,
        0,
    ) + (if recent.len() > 0 {
        "
Recent:"@ + spec_recent_lines(recent, 0)
    } else {
        Seq::empty()
    })
}

/// Format a log summary against the configured cycles.
#[verifier::rlimit(60)]
pub fn format_log_summary(summary: &LogSummary, config: &FlowConfig) -> (r: String)
    ensures
        r@ == spec_log_summary_text(
            summary.total_iterations,
            summary.total_cost_micros,
            view_pairs_u32(summary.cycle_counts@),
            view_pairs_u32(summary.cycle_success_counts@),
            view_recent(summary.recent_outcomes@),
            config.cycles@,
        ),
{
    let ghost counts = view_pairs_u32(summary.cycle_counts@);
    let ghost successes = view_pairs_u32(summary.cycle_success_counts@);
    let ghost recent = view_recent(summary.recent_outcomes@);
    let mut out: Vec<char> = Vec::new();
    push_str(&mut out, "Total iterations: ");
    push_u64(&mut out, summary.total_iterations as u64);
    push_str(&mut out, " | Total cost: $");
    crate::display::push_usd2(&mut out, summary.total_cost_micros);
    push_str(&mut out, "
Cycle balance: ");
    let ghost before = out@;
    let mut k: usize = 0;
    while k < config.cycles.len()
        invariant
            k <= config.cycles@.len(),
            counts == view_pairs_u32(summary.cycle_counts@),
            successes == view_pairs_u32(summary.cycle_success_counts@),
            before + spec_balance_parts(config.cycles@, counts, successes, 0) == out@ + (
            if k < config.cycles@.len() {
                spec_balance_parts(config.cycles@, counts, successes, k as int)
            } else {
                Seq::<char>::empty()
            }),
        decreases config.cycles@.len() - k,
    {
        let ghost pre = out@;
        let count = count_of(&summary.cycle_counts, config.cycles[k].name.as_str());
        let succ = count_of(&summary.cycle_success_counts, config.cycles[k].name.as_str());
        push_string(&mut out, &config.cycles[k].name);
        push_str(&mut out, "=");
        push_u64(&mut out, count as u64);
        push_str(&mut out, " (");
        let pct: u64 = if count == 0 {
            0
        } else {
            (succ as u64 * 100 + count as u64 / 2) / count as u64
        };
        push_u64(&mut out, pct);
        push_str(&mut out, "% success)");
        proof {
            assert(pct as nat == spec_percent(succ, count));
        }
        if k + 1 < config.cycles.len() {
            push_str(&mut out, ", ");
            proof {
                assert(out@ + spec_balance_parts(config.cycles@, counts, successes, k + 1)
                    =~= pre + spec_balance_parts(config.cycles@, counts, successes, k as int));
            }
        } else {
            proof {
                assert(out@ =~= pre + spec_balance_parts(
                    config.cycles@,
                    counts,
                    successes,
                    k as int,
                ));
            }
        }
        k = k + 1;
    }
    proof {
        if config.cycles@.len() == 0 {
            assert(spec_balance_parts(config.cycles@, counts, successes, 0) =~= Seq::<
                char,
            >::empty());
            assert(out@ =~= before + spec_balance_parts(config.cycles@, counts, successes, 0));
        }
    }
    if summary.recent_outcomes.len() > 0 {
        push_str(&mut out, "
Recent:");
        let ghost rbase = out@;
        let mut k: usize = 0;
        while k < summary.recent_outcomes.len()
            invariant
                k <= summary.recent_outcomes@.len(),
                recent == view_recent(summary.recent_outcomes@),
                recent.len() == summary.recent_outcomes@.len(),
                rbase + spec_recent_lines(recent, 0) == out@ + spec_recent_lines(
                    recent,
                    k as int,
                ),
            decreases summary.recent_outcomes@.len() - k,
        {
            let ghost pre = out@;
            let o = &summary.recent_outcomes[k];
            out.push('\n');
            push_str(&mut out, "  #");
            push_u64(&mut out, o.iteration as u64);
            push_str(&mut out, " ");
            push_string(&mut out, &o.cycle);
            push_str(&mut out, " [");
            if o.success {
                push_str(&mut out, "ok");
            } else {
                push_str(&mut out, "FAIL");
            }
            push_str(&mut out, "]: ");
            push_string(&mut out, &o.outcome);
            proof {
                assert(out@ =~= pre + (seq!['\n'] + spec_recent_line(recent[k as int])));
                assert(out@ + spec_recent_lines(recent, k + 1) =~= pre + spec_recent_lines(
                    recent,
                    k as int,
                ));
            }
            k = k + 1;
        }
        proof {
            assert(spec_recent_lines(recent, recent.len() as int) =~= Seq::<char>::empty());
            assert(out@ =~= rbase + spec_recent_lines(recent, 0));
        }
    }
    proof {
        assert(out@ =~= spec_log_summary_text(
            summary.total_iterations,
            summary.total_cost_micros,
            counts,
            successes,
            recent,
            config.cycles@,
        ));
    }
    string_from_chars(&out)
}

/// Look a name up in a count list, first match winning, zero when absent.
fn count_of(pairs: &Vec<(String, u32)>, name: &str) -> (r: u32)
    ensures
        r == spec_count_of(view_pairs_u32(pairs@), name@),
{
    let target = chars_of(name);
    let ghost pv = view_pairs_u32(pairs@);
    let mut k: usize = 0;
    proof {
        assert(pv.skip(0) =~= pv);
    }
    while k < pairs.len()
        invariant
            k <= pairs@.len(),
            pv == view_pairs_u32(pairs@),
            pv.len() == pairs@.len(),
            target@ == name@,
            crate::router::spec_visit_count(pv, name@) == crate::router::spec_visit_count(
                pv.skip(k as int),
                name@,
            ),
        decreases pairs@.len() - k,
    {
        proof {
            assert(pv.skip(k as int).first() == pv[k as int]);
            assert(pv.skip(k as int).drop_first() =~= pv.skip(k + 1));
        }
        let cn = chars_of(pairs[k].0.as_str());
        if eq_chars(&cn, &target) {
            return pairs[k].1;
        }
        k = k + 1;
    }
    proof {
        assert(pv.skip(pv.len() as int) =~= Seq::<(Seq<char>, u32)>::empty());
    }
    0
}

// --- the selection ---

/// The selector's choice.
pub struct CycleSelection {
    /// The chosen cycle's name.
    pub cycle: String,
    /// The stated reason.
    pub reason: String,
}

/// The decision one response line carries: a JSON object with string
/// `cycle` and `reason` naming a configured cycle.
pub open spec fn spec_selection_line(line: Seq<char>, cfg: FlowConfig) -> Option<
    (Seq<char>, Seq<char>),
> {
    let trimmed = spec_trimmed(line);
    if trimmed.len() >= 1 && trimmed[0] == '{' && trimmed.last() == '}' {
        match spec_parse_json(trimmed) {
            Some(v) => match (spec_get(v, "cycle"@), spec_get(v, "reason"@)) {
                (Some(JsonSpec::Str(cycle)), Some(JsonSpec::Str(reason))) => if
                crate::config::spec_has_cycle(cfg.cycles@, cycle) {
                    Some((cycle, reason))
                } else {
                    None
                },
                _ => None,
            },
            None => None,
        }
    } else {
        None
    }
}

/// The first line carrying a selection.
pub open spec fn spec_first_selection(lines: Seq<Seq<char>>, cfg: FlowConfig, k: int) -> Option<
    (Seq<char>, Seq<char>),
>
    decreases lines.len() - k,
{
    if !(0 <= k < lines.len()) {
        None
    } else {
        match spec_selection_line(lines[k], cfg) {
            Some(d) => Some(d),
            None => spec_first_selection(lines, cfg, k + 1),
        }
    }
}

/// The first configured cycle named in the response.
pub open spec fn spec_first_cycle_named(resp: Seq<char>, cfg: FlowConfig, k: int) -> Option<
    Seq<char>,
>
    decreases cfg.cycles@.len() - k,
{
    if !(0 <= k < cfg.cycles@.len()) {
        None
    } else if spec_contains_seq(resp, cfg.cycles@[k].name@) {
        Some(cfg.cycles@[k].name@)
    } else {
        spec_first_cycle_named(resp, cfg, k + 1)
    }
}

/// What the selector reads out of a response: the first JSON line naming a
/// configured cycle; otherwise the first configured cycle named anywhere in
/// the text; otherwise nothing.
pub open spec fn spec_parse_selection(resp: Seq<char>, cfg: FlowConfig) -> Option<
    (Seq<char>, Seq<char>),
> {
    match spec_first_selection(spec_lines(resp), cfg, 0) {
        Some(d) => Some(d),
        None => match spec_first_cycle_named(resp, cfg, 0) {
            Some(n) => Some((n, "Extracted from response text (JSON parse failed)"@)),
            None => None,
        },
    }
}

/// Parse the selector's response into a selection.
#[verifier::rlimit(100)]
#[verifier::spinoff_prover]
pub fn parse_selection(response: &str, config: &FlowConfig) -> (r: Option<CycleSelection>)
    ensures
        match r {
            Some(s) => spec_parse_selection(response@, *config) == Some((s.cycle@, s.reason@)),
            None => spec_parse_selection(response@, *config) is None,
        },
{
    let chars = chars_of(response);
    let lines = crate::text::split_lines(&chars);
    let mut k: usize = 0;
    proof {
        assert(lines.deep_view() == spec_lines(response@));
    }
    while k < lines.len()
        invariant
            k <= lines@.len(),
            lines.deep_view() == spec_lines(response@),
            lines.deep_view().len() == lines@.len(),
            spec_first_selection(lines.deep_view(), *config, 0) == spec_first_selection(
                lines.deep_view(),
                *config,
                k as int,
            ),
        decreases lines@.len() - k,
    {
        proof {
            assert(lines.deep_view()[k as int] == lines@[k as int]@);
        }
        let trimmed = trimmed_of(&lines[k]);
        let is_obj = trimmed.len() >= 1 && trimmed[0] == '{' && trimmed[trimmed.len() - 1] == '}';
        let mut line_result: Option<CycleSelection> = None;
        let mut decided = false;
        if is_obj {
            match parse_json(&trimmed) {
                Some(v) => {
                    let fields = match &v {
                        Json::Obj(f) => Some(f),
                        _ => None,
                    };
                    match fields {
                        Some(f) => {
                            let cycle = match obj_get(f, "cycle") {
                                Some(Json::Str(n)) => Some(n),
                                _ => None,
                            };
                            let reason = match obj_get(f, "reason") {
                                Some(Json::Str(x)) => Some(x),
                                _ => None,
                            };
                            match (cycle, reason) {
                                (Some(n), Some(x)) => {
                                    let name_s = string_from_chars(
                                        &crate::stream::copy_chars_pub(n),
                                    );
                                    if config.get_cycle(name_s.as_str()).is_some() {
                                        line_result = Some(
                                            CycleSelection {
                                                cycle: name_s,
                                                reason: string_from_chars(
                                                    &crate::stream::copy_chars_pub(x),
                                                ),
                                            },
                                        );
                                        decided = true;
                                    }
                                },
                                _ => {},
                            }
                        },
                        None => {},
                    }
                },
                None => {},
            }
        }
        if decided {
            proof {
                assert(spec_selection_line(lines.deep_view()[k as int], *config) == Some(
                    (line_result->Some_0.cycle@, line_result->Some_0.reason@),
                ));
            }
            return line_result;
        }
        proof {
            assert(spec_selection_line(lines.deep_view()[k as int], *config) is None);
        }
        k = k + 1;
    }
    proof {
        assert(spec_first_selection(lines.deep_view(), *config, lines.deep_view().len() as int)
            is None);
    }
    let mut k: usize = 0;
    while k < config.cycles.len()
        invariant
            k <= config.cycles@.len(),
            chars@ == response@,
            spec_first_cycle_named(response@, *config, 0) == spec_first_cycle_named(
                response@,
                *config,
                k as int,
            ),
        decreases config.cycles@.len() - k,
    {
        let name = chars_of(config.cycles[k].name.as_str());
        if contains_seq(&chars, &name) {
            return Some(
                CycleSelection {
                    cycle: crate::stream::clone_string(&config.cycles[k].name),
                    reason: "Extracted from response text (JSON parse failed)".to_owned(),
                },
            );
        }
        k = k + 1;
    }
    None
}

/// The cycle list for the prompt: `- name: description` lines.
pub open spec fn spec_cycle_list(cycles: Seq<crate::config::CycleConfig>, k: int) -> Seq<char>
    decreases cycles.len() - k,
{
    if !(0 <= k < cycles.len()) {
        Seq::empty()
    } else {
        let head = "- "@ + cycles[k].name@ + ": "@ + cycles[k].description@;
        if k == cycles.len() - 1 {
            head
        } else {
            head + seq!['\n'] + spec_cycle_list(cycles, k + 1)
        }
    }
}

/// The built-in selection guidance.
pub open spec fn spec_default_guidance() -> Seq<char> {
    "1. **Priority**: If there are pending P0 tasks, prefer \"coding\" to make progress\n2. **Balance**: Cycles that haven't run recently should get priority\n3. **Context**: If a recent cycle failed, consider \"gardening\" or \"review\" before retrying coding\n4. **Health**: If permission denials or errors are increasing, prefer \"review\" to diagnose"@
}

/// The selector prompt: the run history, the task state, the available
/// cycles, and the selection guidance — the configured override when one is
/// set, the built-in criteria otherwise.
pub open spec fn spec_selector_prompt(
    cfg: FlowConfig,
    log_text: Seq<char>,
    todo_text: Seq<char>,
) -> Seq<char> {
    "You are the cycle selector. Analyze the current state and choose the next cycle to execute.\n\n## Run History\n"@
        + log_text + "\n\n## TODO.md State\n"@ + todo_text + "\n\n## Available Cycles\n"@
        + spec_cycle_list(cfg.cycles@, 0) + "\n\n## Selection Criteria\n"@ + (
    match cfg.selector {
        Some(sc) => if sc.prompt@.len() > 0 {
            sc.prompt@
        } else {
            spec_default_guidance()
        },
        None => spec_default_guidance(),
    })
        + "\n\nChoose the next cycle. Respond with ONLY a JSON object on a single line, no other text:\n{\"cycle\": \"<name>\", \"reason\": \"<one sentence explanation>\"}"@
}

/// Build the selector prompt from the summaries.
#[verifier::rlimit(60)]
pub fn build_selector_prompt(config: &FlowConfig, log: &Vec<CycleOutcome>, todo_content: &str) -> (
    r: String)
    ensures
        r@ == spec_selector_prompt(
            *config,
            spec_log_summary_text(
                spec_max_iter(log@),
                spec_log_cost(log@) as u64,
                spec_log_counts(log@),
                spec_log_successes(log@),
                spec_recent(log@, 5, log@.len() as int),
                config.cycles@,
            ),
            spec_todo_summary(spec_todo_tasks(spec_lines(todo_content@), 0)),
        ),
{
    let summary = summarize_log(log, 5);
    let log_text = format_log_summary(&summary, config);
    let tasks = parse_todo_tasks(todo_content);
    let todo_text = format_todo_summary(&tasks);
    let mut out: Vec<char> = Vec::new();
    push_str(
        &mut out,
        "You are the cycle selector. Analyze the current state and choose the next cycle to execute.\n\n## Run History\n",
    );
    push_string(&mut out, &log_text);
    push_str(&mut out, "\n\n## TODO.md State\n");
    push_string(&mut out, &todo_text);
    push_str(&mut out, "\n\n## Available Cycles\n");
    let ghost base = out@;
    let mut k: usize = 0;
    while k < config.cycles.len()
        invariant
            k <= config.cycles@.len(),
            base + spec_cycle_list(config.cycles@, 0) == out@ + (if k < config.cycles@.len() {
                spec_cycle_list(config.cycles@, k as int)
            } else {
                Seq::<char>::empty()
            }),
        decreases config.cycles@.len() - k,
    {
        let ghost pre = out@;
        push_str(&mut out, "- ");
        push_string(&mut out, &config.cycles[k].name);
        push_str(&mut out, ": ");
        push_string(&mut out, &config.cycles[k].description);
        if k + 1 < config.cycles.len() {
            out.push('\n');
            proof {
                assert(out@ + spec_cycle_list(config.cycles@, k + 1) =~= pre + spec_cycle_list(
                    config.cycles@,
                    k as int,
                ));
            }
        } else {
            proof {
                assert(out@ =~= pre + spec_cycle_list(config.cycles@, k as int));
            }
        }
        k = k + 1;
    }
    proof {
        if config.cycles@.len() == 0 {
            assert(spec_cycle_list(config.cycles@, 0) =~= Seq::<char>::empty());
            assert(out@ =~= base + spec_cycle_list(config.cycles@, 0));
        }
    }
    push_str(&mut out, "\n\n## Selection Criteria\n");
    let mut used_override = false;
    match &config.selector {
        Some(sc) => {
            if sc.prompt.as_str().is_empty() {
                push_str(
                    &mut out,
                    "1. **Priority**: If there are pending P0 tasks, prefer \"coding\" to make progress\n2. **Balance**: Cycles that haven't run recently should get priority\n3. **Context**: If a recent cycle failed, consider \"gardening\" or \"review\" before retrying coding\n4. **Health**: If permission denials or errors are increasing, prefer \"review\" to diagnose",
                );
            } else {
                push_string(&mut out, &sc.prompt);
            }
        },
        None => {
            push_str(
                &mut out,
                "1. **Priority**: If there are pending P0 tasks, prefer \"coding\" to make progress\n2. **Balance**: Cycles that haven't run recently should get priority\n3. **Context**: If a recent cycle failed, consider \"gardening\" or \"review\" before retrying coding\n4. **Health**: If permission denials or errors are increasing, prefer \"review\" to diagnose",
            );
        },
    }
    push_str(
        &mut out,
        "\n\nChoose the next cycle. Respond with ONLY a JSON object on a single line, no other text:\n{\"cycle\": \"<name>\", \"reason\": \"<one sentence explanation>\"}",
    );
    proof {
        assert(out@ =~= spec_selector_prompt(*config, log_text@, todo_text@));
    }
    string_from_chars(&out)
}

} // verus!
