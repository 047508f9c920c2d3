//! Run-level gates and iteration bookkeeping.

use vstd::prelude::*;

use crate::executor::{spec_sat_add_u64, sat_add_u64, CycleResult};
use crate::outcome::CycleOutcome;
use crate::progress::{spec_bump_count, RunProgress};
use crate::text::{
    spec_format_nat, view_pairs_u32, format_u64, push_str, push_u64, string_from_chars,
};

verus! {

/// Whether a periodic run summary is due after `completed_iteration`
/// iterations: the interval is positive and divides the iteration count.
pub open spec fn spec_summary_due(completed_iteration: u32, interval: u32) -> bool {
    interval > 0 && completed_iteration > 0 && completed_iteration as int % interval as int == 0
}

/// Check whether a periodic run summary should be printed at this iteration.
pub fn should_print_summary(completed_iteration: u32, interval: u32) -> (due: bool)
    ensures
        due == spec_summary_due(completed_iteration, interval),
{
    interval > 0 && completed_iteration > 0 && completed_iteration % interval == 0
}

/// The decimal text of an exit code, or `unknown` for a signal death.
pub open spec fn spec_exit_code_text(exit_code: Option<i32>) -> Seq<char> {
    match exit_code {
        Some(c) => if c < 0 {
            seq!['-'] + spec_format_nat((-(c as int)) as nat)
        } else {
            spec_format_nat(c as nat)
        },
        None => "unknown"@,
    }
}

/// Format an exit code for display.
pub fn format_exit_code(exit_code: Option<i32>) -> (r: String)
    ensures
        r@ == spec_exit_code_text(exit_code),
{
    match exit_code {
        Some(c) => {
            if c < 0 {
                let mag: u64 = (-(c as i64)) as u64;
                let mut out: Vec<char> = Vec::new();
                out.push('-');
                push_u64(&mut out, mag);
                proof {
                    assert(out@ =~= seq!['-'] + spec_format_nat((-(c as int)) as nat));
                }
                string_from_chars(&out)
            } else {
                crate::text::format_u64_string(c as u64)
            }
        },
        None => "unknown".to_owned(),
    }
}

// --- the health gate ---

/// One cycle execution's success flag within the current run.
pub struct RunOutcome {
    /// The cycle completed with exit code zero.
    pub success: bool,
}

/// The success flags of a run history.
pub open spec fn spec_flags(history: Seq<RunOutcome>) -> Seq<bool> {
    history.map_values(|o: RunOutcome| o.success)
}

/// All of `h[s..s+k]` are failures.
pub open spec fn spec_all_failures(h: Seq<bool>, s: int, k: int) -> bool {
    forall|j: int| s <= j < s + k ==> !(#[trigger] h[j])
}

/// Somewhere in `h` sit `k` consecutive failures.
pub open spec fn spec_failure_streak(h: Seq<bool>, k: int) -> bool {
    exists|s: int| 0 <= s && s + k <= h.len() && #[trigger] spec_all_failures(h, s, k)
}

/// The length of the failure run that ends the history.
pub open spec fn spec_trailing_failures(h: Seq<bool>, i: int) -> int
    decreases i,
{
    if i <= 0 || i > h.len() {
        0
    } else if h[i - 1] {
        0
    } else {
        1 + spec_trailing_failures(h, i - 1)
    }
}

/// Check run health: the reason to stop when the history holds
/// `max_consecutive_failures` failures in a row and the threshold is
/// positive, nothing otherwise.
pub fn check_run_health(history: &Vec<RunOutcome>, max_consecutive_failures: u32) -> (r: Option<
    String,
>)
    ensures
        r is Some <==> (max_consecutive_failures > 0 && spec_failure_streak(
            spec_flags(history@),
            max_consecutive_failures as int,
        )),
{
    let ghost h = spec_flags(history@);
    if max_consecutive_failures == 0 {
        return None;
    }
    let mut consecutive: u32 = 0;
    let mut i: usize = 0;
    proof {
        assert(h.len() == history@.len());
    }
    while i < history.len()
        invariant
            i <= history@.len(),
            h == spec_flags(history@),
            h.len() == history@.len(),
            max_consecutive_failures > 0,
            consecutive as int == spec_trailing_failures(h, i as int),
            consecutive < max_consecutive_failures,
            forall|j: int| i - consecutive <= j < i ==> !(#[trigger] h[j]),
            !spec_failure_streak(h.take(i as int), max_consecutive_failures as int),
        decreases history@.len() - i,
    {
        proof {
            assert(h[i as int] == history@[i as int].success);
            lemma_trailing_bounds(h, i as int);
        }
        if history[i].success {
            consecutive = 0;
        } else {
            consecutive = consecutive + 1;
            if consecutive >= max_consecutive_failures {
                proof {
                    let s = i + 1 - max_consecutive_failures as int;
                    assert forall|j: int| s <= j < s + max_consecutive_failures implies !(
                    #[trigger] h[j]) by {
                        if j < i {
                        } else {
                            assert(j == i as int);
                        }
                    }
                    assert(spec_all_failures(h, s, max_consecutive_failures as int));
                    assert(spec_failure_streak(h, max_consecutive_failures as int));
                }
                let mut out: Vec<char> = Vec::new();
                push_str(&mut out, "Stopping run: ");
                push_u64(&mut out, consecutive as u64);
                push_str(&mut out, " consecutive cycle failures (threshold: ");
                push_u64(&mut out, max_consecutive_failures as u64);
                push_str(&mut out, "). Fix the underlying issue before continuing.");
                return Some(string_from_chars(&out));
            }
            proof {
                assert(spec_trailing_failures(h, i + 1) == 1 + spec_trailing_failures(
                    h,
                    i as int,
                ));
            }
        }
        proof {
            let hp = h.take(i + 1);
            assert(!spec_failure_streak(hp, max_consecutive_failures as int)) by {
                if spec_failure_streak(hp, max_consecutive_failures as int) {
                    let s = choose|s: int|
                        0 <= s && s + max_consecutive_failures <= hp.len()
                            && #[trigger] spec_all_failures(
                            hp,
                            s,
                            max_consecutive_failures as int,
                        );
                    if s + max_consecutive_failures <= i {
                        assert forall|j: int| s <= j < s + max_consecutive_failures implies !(
                        #[trigger] h.take(i as int)[j]) by {
                            assert(!hp[j]);
                            assert(h.take(i as int)[j] == hp[j]);
                        }
                        assert(spec_all_failures(
                            h.take(i as int),
                            s,
                            max_consecutive_failures as int,
                        ));
                        assert(spec_failure_streak(
                            h.take(i as int),
                            max_consecutive_failures as int,
                        ));
                        assert(false);
                    } else {
                        // the streak would end exactly at i + 1
                        assert(s + max_consecutive_failures == i + 1);
                        assert forall|j: int| s <= j <= i implies !(#[trigger] h[j]) by {
                            assert(!hp[j]);
                        }
                        // so the trailing run at i + 1 reaches the threshold
                        lemma_trailing_covers(h, s, i + 1);
                        assert(spec_trailing_failures(h, i + 1) >= i + 1 - s);
                        if h[i as int] {
                            assert(!hp[i as int]);
                            assert(false);
                        }
                        assert(spec_trailing_failures(h, i + 1) == 1 + spec_trailing_failures(
                            h,
                            i as int,
                        ));
                        assert(false);
                    }
                }
            }
        }
        i = i + 1;
    }
    proof {
        assert(h.take(h.len() as int) =~= h);
    }
    None
}

/// The trailing count sits between zero and the position.
proof fn lemma_trailing_bounds(h: Seq<bool>, i: int)
    ensures
        0 <= spec_trailing_failures(h, i),
        i >= 0 ==> spec_trailing_failures(h, i) <= i,
    decreases i,
{
    if 0 < i <= h.len() && !h[i - 1] {
        lemma_trailing_bounds(h, i - 1);
    }
}

/// A block of failures ending at `e` bounds the trailing count from below.
proof fn lemma_trailing_covers(h: Seq<bool>, s: int, e: int)
    requires
        0 <= s <= e <= h.len(),
        forall|j: int| s <= j < e ==> !(#[trigger] h[j]),
    ensures
        spec_trailing_failures(h, e) >= e - s,
    decreases e - s,
{
    lemma_trailing_bounds(h, e);
    if s < e {
        lemma_trailing_covers(h, s, e - 1);
        assert(!h[e - 1]);
        assert(spec_trailing_failures(h, e) == 1 + spec_trailing_failures(h, e - 1));
    }
}

/// The health gate, stated for the histories the run loop builds: when the
/// gate had not fired on the shorter history, it fires after one more entry
/// exactly when the history now ends in `max` consecutive failures.
pub proof fn lemma_health_gate_suffix(h: Seq<bool>, max: u32)
    requires
        max > 0,
        h.len() > 0,
        !spec_failure_streak(h.drop_last(), max as int),
    ensures
        spec_failure_streak(h, max as int) <==> (h.len() >= max && forall|j: int|
            h.len() - max <= j < h.len() ==> !(#[trigger] h[j])),
{
    if spec_failure_streak(h, max as int) {
        let s = choose|s: int|
            0 <= s && s + max <= h.len() && #[trigger] spec_all_failures(h, s, max as int);
        if s + max < h.len() {
            assert forall|j: int| s <= j < s + max implies !(#[trigger] h.drop_last()[j]) by {
                assert(h.drop_last()[j] == h[j]);
                assert(!h[j]);
            }
            assert(spec_all_failures(h.drop_last(), s, max as int));
            assert(spec_failure_streak(h.drop_last(), max as int));
            assert(false);
        }
        assert(s + max == h.len());
        assert forall|j: int| h.len() - max <= j < h.len() implies !(#[trigger] h[j]) by {
            assert(s <= j < s + max);
        }
    }
    if h.len() >= max && (forall|j: int| h.len() - max <= j < h.len() ==> !(#[trigger] h[j])) {
        let s = h.len() - max;
        assert(spec_all_failures(h, s, max as int));
        assert(spec_failure_streak(h, max as int));
    }
}

// --- the denial gate ---

/// Whether the denial ceiling is exceeded.
pub fn denial_gate_fires(denials: u32, max_denials: u32) -> (r: bool)
    ensures
        r == (denials > max_denials),
{
    denials > max_denials
}

/// The diagnostic printed when the denial gate fires.
pub open spec fn spec_denial_gate_text(denials: u32, max_denials: u32, cycle: Seq<char>) -> Seq<
    char,
> {
    "Stopping: "@ + spec_format_nat(denials as nat) + " permission denials in '"@ + cycle
        + "' exceeded threshold ("@ + spec_format_nat(max_denials as nat)
        + "). Fix permissions in the configuration before continuing."@
}

/// Build the denial-gate diagnostic.
pub fn denial_gate_message(denials: u32, max_denials: u32, cycle_name: &str) -> (r: String)
    ensures
        r@ == spec_denial_gate_text(denials, max_denials, cycle_name@),
{
    let mut out: Vec<char> = Vec::new();
    push_str(&mut out, "Stopping: ");
    push_u64(&mut out, denials as u64);
    push_str(&mut out, " permission denials in '");
    push_str(&mut out, cycle_name);
    push_str(&mut out, "' exceeded threshold (");
    push_u64(&mut out, max_denials as u64);
    push_str(&mut out, "). Fix permissions in the configuration before continuing.");
    proof {
        assert(out@ =~= spec_denial_gate_text(denials, max_denials, cycle_name@));
    }
    string_from_chars(&out)
}

// --- log records and progress from a cycle result ---

/// The outcome text a result earns: its own text when it produced any, a
/// fixed success note, or the failure note with the exit code.
pub open spec fn spec_outcome_text(r: CycleResult) -> Seq<char> {
    match r.result_text {
        Some(t) => t@,
        None => if r.success {
            "Completed successfully"@
        } else {
            "Failed with exit code "@ + spec_exit_code_text(r.exit_code)
        },
    }
}

/// Build the history-log record of a cycle result, under the given
/// iteration number and timestamp.
pub fn build_outcome(result: &CycleResult, iteration: u32, timestamp: String) -> (o: CycleOutcome)
    ensures
        o.iteration == iteration,
        o.cycle@ == result.cycle_name@,
        o.timestamp == timestamp,
        o.outcome@ == spec_outcome_text(*result),
        o.files_changed.deep_view() == result.files_changed.deep_view(),
        o.tests_passed == result.tests_passed,
        o.duration_secs == result.duration_secs,
        o.num_turns == result.num_turns,
        o.total_cost_micros == result.total_cost_micros,
        o.permission_denial_count == result.permission_denial_count,
        match result.permission_denials {
            Some(ref d) => o.permission_denials matches Some(od) && od.deep_view()
                == d.deep_view(),
            None => o.permission_denials is None,
        },
        o.steps is None,
{
    let outcome_text: String = match &result.result_text {
        Some(t) => crate::stream::clone_string(t),
        None => {
            if result.success {
                "Completed successfully".to_owned()
            } else {
                let mut out: Vec<char> = Vec::new();
                push_str(&mut out, "Failed with exit code ");
                let code = format_exit_code(result.exit_code);
                crate::text::push_string(&mut out, &code);
                proof {
                    assert(out@ =~= "Failed with exit code "@ + spec_exit_code_text(
                        result.exit_code,
                    ));
                }
                string_from_chars(&out)
            }
        },
    };
    let files = clone_strings(&result.files_changed);
    let denials = match &result.permission_denials {
        Some(d) => Some(clone_strings(d)),
        None => None,
    };
    CycleOutcome {
        iteration,
        cycle: crate::stream::clone_string(&result.cycle_name),
        timestamp,
        outcome: outcome_text,
        files_changed: files,
        tests_passed: result.tests_passed,
        duration_secs: result.duration_secs,
        num_turns: result.num_turns,
        total_cost_micros: result.total_cost_micros,
        permission_denial_count: result.permission_denial_count,
        permission_denials: denials,
        steps: None,
    }
}

/// Clone a list of strings, text for text.
pub fn clone_strings(v: &Vec<String>) -> (r: Vec<String>)
    ensures
        r.deep_view() == v.deep_view(),
{
    let mut r: Vec<String> = Vec::new();
    let mut k: usize = 0;
    while k < v.len()
        invariant
            k <= v@.len(),
            r.deep_view() == v.deep_view().take(k as int),
        decreases v@.len() - k,
    {
        let ghost pre = r.deep_view();
        r.push(crate::stream::clone_string(&v[k]));
        proof {
            assert(r.deep_view() =~~= pre.push(v@[k as int]@));
            assert(v.deep_view().take(k + 1) =~~= pre.push(v@[k as int]@));
        }
        k = k + 1;
    }
    proof {
        assert(v.deep_view().take(v@.len() as int) =~= v.deep_view());
    }
    r
}

/// Update the progress snapshot after a cycle: bump that cycle's count, add
/// the duration and cost to the running totals with saturation, and record
/// the latest outcome text.
pub fn update_progress_after_cycle(
    progress: &mut RunProgress,
    cycle_name: &str,
    result: &CycleResult,
)
    ensures
        view_pairs_u32(final(progress).cycles_executed@) == spec_bump_count(
            view_pairs_u32(old(progress).cycles_executed@),
            cycle_name@,
        ),
        final(progress).total_duration_secs as nat == spec_sat_add_u64(
            old(progress).total_duration_secs,
            result.duration_secs as nat,
        ),
        final(progress).total_cost_micros as nat == spec_sat_add_u64(
            old(progress).total_cost_micros,
            (match result.total_cost_micros {
                Some(c) => c,
                None => 0,
            }) as nat,
        ),
        match result.result_text {
            Some(ref t) => final(progress).last_outcome matches Some(lo) && lo@ == t@,
            None => final(progress).last_outcome is None,
        },
        final(progress).started_at == old(progress).started_at,
        final(progress).current_iteration == old(progress).current_iteration,
        final(progress).max_iterations == old(progress).max_iterations,
        final(progress).current_cycle == old(progress).current_cycle,
        final(progress).current_status == old(progress).current_status,
{
    crate::progress::bump_cycle_count(&mut progress.cycles_executed, cycle_name);
    progress.total_duration_secs = sat_add_u64(progress.total_duration_secs, result.duration_secs);
    let cost: u64 = match result.total_cost_micros {
        Some(c) => c,
        None => 0,
    };
    progress.total_cost_micros = sat_add_u64(progress.total_cost_micros, cost);
    progress.last_outcome = match &result.result_text {
        Some(t) => Some(crate::stream::clone_string(t)),
        None => None,
    };
}

/// The sum of the durations a log records.
pub open spec fn spec_sum_durations(log: Seq<CycleOutcome>) -> nat
    decreases log.len(),
{
    if log.len() == 0 {
        0
    } else {
        (spec_sum_durations(log.drop_last()) + log.last().duration_secs) as nat
    }
}

/// Duration accounting: appending a record to the log and adding its
/// duration to the progress total keep the total equal to the sum of the
/// log's durations, as long as the sum stays within range.
pub proof fn lemma_duration_accounting(log: Seq<CycleOutcome>, entry: CycleOutcome, total: u64)
    requires
        total as nat == spec_sum_durations(log),
        spec_sum_durations(log) + entry.duration_secs <= u64::MAX,
    ensures
        spec_sat_add_u64(total, entry.duration_secs as nat) == spec_sum_durations(
            log.push(entry),
        ),
{
    assert(log.push(entry).drop_last() =~= log);
    assert(log.push(entry).last() == entry);
}

/// The saturating sum of the durations a log records: what the running
/// total actually holds, since every addition into it saturates.
pub open spec fn spec_sum_durations_sat(log: Seq<CycleOutcome>) -> nat
    decreases log.len(),
{
    if log.len() == 0 {
        0
    } else {
        let prev = spec_sum_durations_sat(log.drop_last());
        if prev + log.last().duration_secs > u64::MAX {
            u64::MAX as nat
        } else {
            (prev + log.last().duration_secs) as nat
        }
    }
}

/// The saturating sum never leaves the `u64` range.
pub proof fn lemma_sum_durations_sat_bound(log: Seq<CycleOutcome>)
    ensures
        spec_sum_durations_sat(log) <= u64::MAX,
    decreases log.len(),
{
    if log.len() > 0 {
        lemma_sum_durations_sat_bound(log.drop_last());
    }
}

/// Duration accounting, with no hypothesis: appending a record to the log
/// and folding its duration into the total with the saturating addition
/// the code uses keeps the total equal to the log's saturating sum, for
/// every log and every record.
pub proof fn lemma_duration_accounting_saturated(
    log: Seq<CycleOutcome>,
    entry: CycleOutcome,
    total: u64,
)
    requires
        total as nat == spec_sum_durations_sat(log),
    ensures
        crate::executor::spec_sat_add_u64(total, entry.duration_secs as nat)
            == spec_sum_durations_sat(log.push(entry)),
{
    assert(log.push(entry).drop_last() =~= log);
    assert(log.push(entry).last() == entry);
}

/// While every addition stays in range, the saturating sum is the exact
/// sum, so the hypothesis-free law above refines the exact one.
pub proof fn lemma_sum_durations_sat_exact(log: Seq<CycleOutcome>)
    requires
        spec_sum_durations(log) <= u64::MAX,
    ensures
        spec_sum_durations_sat(log) == spec_sum_durations(log),
    decreases log.len(),
{
    if log.len() > 0 {
        lemma_sum_durations_sat_exact(log.drop_last());
    }
}

} // verus!
