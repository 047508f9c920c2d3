//! Diagnostics derived from the configuration and the history log.
//!
//! Each check's contract pins which findings it emits — their codes and
//! severities, in order — for every configuration and log; the message
//! texts are exercised by tests.

use vstd::prelude::*;

use crate::config::FlowConfig;
use crate::outcome::CycleOutcome;
use crate::stream::spec_suggest_fix;
use crate::text::{
    spec_dedup_first, spec_format_nat, chars_of, eq_chars, push_str, push_string, push_u64,
    string_from_chars,
};

verus! {

/// How serious a finding is.
#[derive(Clone, Copy, PartialEq, Eq, Structural)]
pub enum Severity {
    /// Must fix.
    Error,
    /// Should fix.
    Warning,
    /// A suggestion.
    Info,
}

/// One diagnostic finding.
pub struct Finding {
    /// Severity of the finding.
    pub severity: Severity,
    /// Short code for the finding.
    pub code: String,
    /// Human-readable message.
    pub message: String,
    /// Suggested fix, when one is concrete.
    pub suggestion: Option<String>,
}

/// The report: all findings, most severe first.
pub struct DiagnosticReport {
    /// All findings, errors before warnings before suggestions.
    pub findings: Vec<Finding>,
}

/// The code and severity of a finding list, in order.
pub open spec fn spec_tags(findings: Seq<Finding>) -> Seq<(Seq<char>, Severity)> {
    findings.map_values(|f: Finding| (f.code@, f.severity))
}

/// How many findings carry this severity.
pub open spec fn spec_count_severity(findings: Seq<Finding>, sev: Severity) -> nat
    decreases findings.len(),
{
    if findings.len() == 0 {
        0
    } else {
        spec_count_severity(findings.drop_last(), sev) + (if findings.last().severity == sev {
            1nat
        } else {
            0nat
        })
    }
}

impl DiagnosticReport {
    /// No findings at all.
    pub fn is_clean(&self) -> (r: bool)
        ensures
            r == (self.findings@.len() == 0),
    {
        self.findings.len() == 0
    }

    /// The number of errors.
    pub fn error_count(&self) -> (r: usize)
        ensures
            r as nat == spec_count_severity(self.findings@, Severity::Error),
    {
        count_severity(&self.findings, Severity::Error)
    }

    /// The number of warnings.
    pub fn warning_count(&self) -> (r: usize)
        ensures
            r as nat == spec_count_severity(self.findings@, Severity::Warning),
    {
        count_severity(&self.findings, Severity::Warning)
    }

    /// The number of suggestions.
    pub fn info_count(&self) -> (r: usize)
        ensures
            r as nat == spec_count_severity(self.findings@, Severity::Info),
    {
        count_severity(&self.findings, Severity::Info)
    }
}

fn count_severity(findings: &Vec<Finding>, sev: Severity) -> (r: usize)
    ensures
        r as nat == spec_count_severity(findings@, sev),
{
    let mut n: usize = 0;
    let mut k: usize = 0;
    while k < findings.len()
        invariant
            k <= findings@.len(),
            n as nat == spec_count_severity(findings@.take(k as int), sev),
            n <= k,
        decreases findings@.len() - k,
    {
        proof {
            assert(findings@.take(k + 1).drop_last() =~= findings@.take(k as int));
            assert(findings@.take(k + 1).last() == findings@[k as int]);
        }
        if findings[k].severity == sev {
            n = n + 1;
        }
        k = k + 1;
    }
    proof {
        assert(findings@.take(findings@.len() as int) =~= findings@);
    }
    n
}

/// The rank of a severity: errors first, then warnings, then suggestions.
pub open spec fn spec_sev_rank(s: Severity) -> int {
    match s {
        Severity::Error => 0,
        Severity::Warning => 1,
        Severity::Info => 2,
    }
}

// --- what each check emits ---

/// No earlier log entry names the same cycle.
pub open spec fn spec_first_occurrence(log: Seq<CycleOutcome>, k: int) -> bool {
    forall|j: int| 0 <= j < k ==> (#[trigger] log[j]).cycle@ != log[k].cycle@
}

/// Entries for this cycle.
pub open spec fn spec_count_name(log: Seq<CycleOutcome>, name: Seq<char>) -> nat
    decreases log.len(),
{
    if log.len() == 0 {
        0
    } else {
        spec_count_name(log.drop_last(), name) + (if log.last().cycle@ == name {
            1nat
        } else {
            0nat
        })
    }
}

/// Failed entries for this cycle.
pub open spec fn spec_count_failed(log: Seq<CycleOutcome>, name: Seq<char>) -> nat
    decreases log.len(),
{
    if log.len() == 0 {
        0
    } else {
        spec_count_failed(log.drop_last(), name) + (if log.last().cycle@ == name
            && crate::outcome::spec_outcome_failed(log.last()) {
            1nat
        } else {
            0nat
        })
    }
}

/// Entries for this cycle whose cost exceeds five dollars.
pub open spec fn spec_count_costly(log: Seq<CycleOutcome>, name: Seq<char>) -> nat
    decreases log.len(),
{
    if log.len() == 0 {
        0
    } else {
        spec_count_costly(log.drop_last(), name) + (if log.last().cycle@ == name && (
        match log.last().total_cost_micros {
            Some(c) => c > 5000000,
            None => false,
        }) {
            1nat
        } else {
            0nat
        })
    }
}

/// The denial findings: one error per log entry that records denials.
pub open spec fn spec_d001_tags(log: Seq<CycleOutcome>, k: int) -> Seq<(Seq<char>, Severity)>
    decreases log.len() - k,
{
    if !(0 <= k < log.len()) {
        Seq::empty()
    } else {
        (match log[k].permission_denials {
            Some(d) => if d@.len() > 0 {
                seq![("D001"@, Severity::Error)]
            } else {
                Seq::empty()
            },
            None => Seq::empty(),
        }) + spec_d001_tags(log, k + 1)
    }
}

/// The distinct denied tools of an entry, in first-seen order.
pub open spec fn spec_d001_tools(o: CycleOutcome) -> Seq<Seq<char>> {
    spec_dedup_first(match o.permission_denials {
        Some(d) => d.deep_view(),
        None => Seq::empty(),
    })
}

/// The denial finding's message: the cycle, the denial count, the
/// iteration, and the distinct denied tools.
pub open spec fn spec_d001_message(o: CycleOutcome) -> Seq<char> {
    "Cycle '"@ + o.cycle@ + "' had "@ + spec_format_nat(
        match o.permission_denials {
            Some(d) => d@.len(),
            None => 0,
        },
    ) + " permission denial(s) in iteration "@ + spec_format_nat(o.iteration as nat) + ": "@
        + crate::context::spec_join_comma(spec_d001_tools(o), 0)
}

/// The denial finding's suggestion: one permission hint per distinct tool.
pub open spec fn spec_d001_suggestion(o: CycleOutcome) -> Seq<char> {
    "Add to the configuration permissions: "@ + crate::context::spec_join_comma(
        spec_d001_tools(o).map_values(|tool: Seq<char>| spec_suggest_fix(tool)),
        0,
    )
}

/// The denial findings' message and suggestion texts, in order.
pub open spec fn spec_d001_entries(log: Seq<CycleOutcome>, k: int) -> Seq<(Seq<char>, Seq<char>)>
    decreases log.len() - k,
{
    if !(0 <= k < log.len()) {
        Seq::empty()
    } else {
        (match log[k].permission_denials {
            Some(d) => if d@.len() > 0 {
                seq![(spec_d001_message(log[k]), spec_d001_suggestion(log[k]))]
            } else {
                Seq::empty()
            },
            None => Seq::empty(),
        }) + spec_d001_entries(log, k + 1)
    }
}

/// The health findings for the cycle first seen at `k`: a warning when at
/// least two runs exist and more than half failed, and a warning when any
/// run cost more than five dollars.
pub open spec fn spec_health_tags_at(log: Seq<CycleOutcome>, k: int) -> Seq<
    (Seq<char>, Severity),
> {
    let name = log[k].cycle@;
    (if spec_count_name(log, name) >= 2 && spec_count_failed(log, name) * 2 > spec_count_name(
        log,
        name,
    ) {
        seq![("D002"@, Severity::Warning)]
    } else {
        Seq::empty()
    }) + (if spec_count_costly(log, name) > 0 {
        seq![("D003"@, Severity::Warning)]
    } else {
        Seq::empty()
    })
}

/// The health findings: per distinct cycle in first-seen order.
pub open spec fn spec_health_tags(log: Seq<CycleOutcome>, k: int) -> Seq<(Seq<char>, Severity)>
    decreases log.len() - k,
{
    if !(0 <= k < log.len()) {
        Seq::empty()
    } else {
        (if spec_first_occurrence(log, k) {
            spec_health_tags_at(log, k)
        } else {
            Seq::empty()
        }) + spec_health_tags(log, k + 1)
    }
}

/// The configuration findings: a suggestion for a triggered cycle without
/// a frequency constraint, and a warning for a cycle that ends up with no
/// permissions at all.
pub open spec fn spec_lint_tags(c: FlowConfig, k: int) -> Seq<(Seq<char>, Severity)>
    decreases c.cycles@.len() - k,
{
    if !(0 <= k < c.cycles@.len()) {
        Seq::empty()
    } else {
        (if c.cycles@[k].after@.len() > 0 && c.cycles@[k].min_interval is None {
            seq![("D004"@, Severity::Info)]
        } else {
            Seq::empty()
        }) + (if c.cycles@[k].permissions@.len() == 0 && c.global.permissions@.len() == 0 {
            seq![("D005"@, Severity::Warning)]
        } else {
            Seq::empty()
        }) + spec_lint_tags(c, k + 1)
    }
}

/// The iterations of this cycle's runs, in log order.
pub open spec fn spec_runs_iters(log: Seq<CycleOutcome>, name: Seq<char>) -> Seq<u32>
    decreases log.len(),
{
    if log.len() == 0 {
        Seq::empty()
    } else if log.last().cycle@ == name {
        spec_runs_iters(log.drop_last(), name).push(log.last().iteration)
    } else {
        spec_runs_iters(log.drop_last(), name)
    }
}

/// Consecutive runs at most one iteration apart.
pub open spec fn spec_close_runs(iters: Seq<u32>) -> nat
    decreases iters.len(),
{
    if iters.len() < 2 {
        0
    } else {
        spec_close_runs(iters.drop_last()) + (if iters.last() as int - iters[iters.len() - 2]
            <= 1 {
            1nat
        } else {
            0nat
        })
    }
}

/// The frequency findings: a suggestion for a triggered cycle that ran at
/// least twice with close runs and no effective frequency constraint.
pub open spec fn spec_freq_tags(c: FlowConfig, log: Seq<CycleOutcome>, k: int) -> Seq<
    (Seq<char>, Severity),
>
    decreases c.cycles@.len() - k,
{
    if !(0 <= k < c.cycles@.len()) {
        Seq::empty()
    } else {
        (if c.cycles@[k].after@.len() > 0 && spec_runs_iters(log, c.cycles@[k].name@).len() >= 2
            && spec_close_runs(spec_runs_iters(log, c.cycles@[k].name@)) > 0 && (
        match c.cycles@[k].min_interval {
            None => true,
            Some(v) => v <= 1,
        }) {
            seq![("D006"@, Severity::Info)]
        } else {
            Seq::empty()
        }) + spec_freq_tags(c, log, k + 1)
    }
}

/// Everything the checks emit, in check order.
pub open spec fn spec_all_tags(c: FlowConfig, log: Seq<CycleOutcome>) -> Seq<
    (Seq<char>, Severity),
> {
    spec_d001_tags(log, 0) + spec_health_tags(log, 0) + spec_lint_tags(c, 0) + spec_freq_tags(
        c,
        log,
        0,
    )
}

/// The tags with this severity, in order.
pub open spec fn spec_keep_tags(tags: Seq<(Seq<char>, Severity)>, sev: Severity) -> Seq<
    (Seq<char>, Severity),
>
    decreases tags.len(),
{
    if tags.len() == 0 {
        Seq::empty()
    } else {
        spec_keep_tags(tags.drop_last(), sev) + (if tags.last().1 == sev {
            seq![tags.last()]
        } else {
            Seq::empty()
        })
    }
}

/// Findings sorted by severity keep their per-severity order: the sorted
/// tag sequence.
pub open spec fn spec_sorted_tags(tags: Seq<(Seq<char>, Severity)>) -> Seq<
    (Seq<char>, Severity),
> {
    spec_keep_tags(tags, Severity::Error) + spec_keep_tags(tags, Severity::Warning)
        + spec_keep_tags(tags, Severity::Info)
}

// --- executable checks ---

fn outcome_failed(o: &CycleOutcome) -> (r: bool)
    ensures
        r == crate::outcome::spec_outcome_failed(*o),
{
    let oc = chars_of(o.outcome.as_str());
    crate::text::starts_with(&oc, &chars_of("Failed"))
}

fn count_name(log: &Vec<CycleOutcome>, name: &Vec<char>) -> (r: u64)
    requires
        log@.len() <= u64::MAX,
    ensures
        r as nat == spec_count_name(log@, name@),
{
    let mut n: u64 = 0;
    let mut k: usize = 0;
    while k < log.len()
        invariant
            k <= log@.len(),
            log@.len() <= u64::MAX,
            n as nat == spec_count_name(log@.take(k as int), name@),
            n <= k,
        decreases log@.len() - k,
    {
        proof {
            assert(log@.take(k + 1).drop_last() =~= log@.take(k as int));
            assert(log@.take(k + 1).last() == log@[k as int]);
        }
        let cn = chars_of(log[k].cycle.as_str());
        if eq_chars(&cn, name) {
            n = n + 1;
        }
        k = k + 1;
    }
    proof {
        assert(log@.take(log@.len() as int) =~= log@);
    }
    n
}

fn count_failed(log: &Vec<CycleOutcome>, name: &Vec<char>) -> (r: u64)
    requires
        log@.len() <= u64::MAX,
    ensures
        r as nat == spec_count_failed(log@, name@),
{
    let mut n: u64 = 0;
    let mut k: usize = 0;
    while k < log.len()
        invariant
            k <= log@.len(),
            log@.len() <= u64::MAX,
            n as nat == spec_count_failed(log@.take(k as int), name@),
            n <= k,
        decreases log@.len() - k,
    {
        proof {
            assert(log@.take(k + 1).drop_last() =~= log@.take(k as int));
            assert(log@.take(k + 1).last() == log@[k as int]);
        }
        let cn = chars_of(log[k].cycle.as_str());
        if eq_chars(&cn, name) && outcome_failed(&log[k]) {
            n = n + 1;
        }
        k = k + 1;
    }
    proof {
        assert(log@.take(log@.len() as int) =~= log@);
    }
    n
}

fn count_costly(log: &Vec<CycleOutcome>, name: &Vec<char>) -> (r: u64)
    requires
        log@.len() <= u64::MAX,
    ensures
        r as nat == spec_count_costly(log@, name@),
{
    let mut n: u64 = 0;
    let mut k: usize = 0;
    while k < log.len()
        invariant
            k <= log@.len(),
            log@.len() <= u64::MAX,
            n as nat == spec_count_costly(log@.take(k as int), name@),
            n <= k,
        decreases log@.len() - k,
    {
        proof {
            assert(log@.take(k + 1).drop_last() =~= log@.take(k as int));
            assert(log@.take(k + 1).last() == log@[k as int]);
        }
        let cn = chars_of(log[k].cycle.as_str());
        let costly = match log[k].total_cost_micros {
            Some(c) => c > 5000000,
            None => false,
        };
        if eq_chars(&cn, name) && costly {
            n = n + 1;
        }
        k = k + 1;
    }
    proof {
        assert(log@.take(log@.len() as int) =~= log@);
    }
    n
}

fn is_first_occurrence(log: &Vec<CycleOutcome>, k: usize) -> (r: bool)
    requires
        k < log@.len(),
    ensures
        r == spec_first_occurrence(log@, k as int),
{
    let name = chars_of(log[k].cycle.as_str());
    let mut j: usize = 0;
    while j < k
        invariant
            j <= k < log@.len(),
            name@ == log@[k as int].cycle@,
            forall|x: int| 0 <= x < j ==> (#[trigger] log@[x]).cycle@ != log@[k as int].cycle@,
        decreases k - j,
    {
        let cn = chars_of(log[j].cycle.as_str());
        if eq_chars(&cn, &name) {
            return false;
        }
        j = j + 1;
    }
    true
}

/// Permission denials seen in the log: one error per entry that records
/// any, naming the distinct denied tools in first-seen order and a
/// permission suggestion built from the fix helper for each.
#[verifier::rlimit(100)]
#[verifier::spinoff_prover]
fn check_permission_denials(log: &Vec<CycleOutcome>) -> (r: Vec<Finding>)
    ensures
        spec_tags(r@) == spec_d001_tags(log@, 0),
        r@.len() == spec_d001_entries(log@, 0).len(),
        forall|j: int|
            0 <= j < r@.len() ==> (#[trigger] r@[j]).severity == Severity::Error && r@[j].code@
                == "D001"@ && r@[j].message@ == spec_d001_entries(log@, 0)[j].0 && (
            r@[j].suggestion matches Some(s) && s@ == spec_d001_entries(log@, 0)[j].1),
{
    let mut findings: Vec<Finding> = Vec::new();
    let ghost entries = spec_d001_entries(log@, 0);
    proof {
        assert(spec_tags(findings@) =~= Seq::<(Seq<char>, Severity)>::empty());
    }
    let mut k: usize = 0;
    while k < log.len()
        invariant
            k <= log@.len(),
            entries == spec_d001_entries(log@, 0),
            spec_tags(findings@) + spec_d001_tags(log@, k as int) == spec_d001_tags(log@, 0),
            findings@.len() + spec_d001_entries(log@, k as int).len() == entries.len(),
            forall|j: int|
                0 <= j < findings@.len() ==> (#[trigger] findings@[j]).severity
                    == Severity::Error && findings@[j].code@ == "D001"@ && findings@[j].message@
                    == entries[j].0 && (findings@[j].suggestion matches Some(s) && s@
                    == entries[j].1),
            entries == entries.take(findings@.len() as int) + spec_d001_entries(log@, k as int),
        decreases log@.len() - k,
    {
        let ghost pre = spec_tags(findings@);
        let ghost pre_len = findings@.len();
        let has = match &log[k].permission_denials {
            Some(d) => d.len() > 0,
            None => false,
        };
        if has {
            let denials = match &log[k].permission_denials {
                Some(d) => d,
                None => {
                    proof {
                        assert(false);
                    }
                    return findings;
                },
            };
            let unique = dedup_strings(denials);
            let mut msg: Vec<char> = Vec::new();
            push_str(&mut msg, "Cycle '");
            push_string(&mut msg, &log[k].cycle);
            push_str(&mut msg, "' had ");
            push_u64(&mut msg, denials.len() as u64);
            push_str(&mut msg, " permission denial(s) in iteration ");
            push_u64(&mut msg, log[k].iteration as u64);
            push_str(&mut msg, ": ");
            crate::context::push_join_comma_pub(&mut msg, &unique);
            proof {
                assert(denials.deep_view().len() == denials@.len());
                assert(msg@ =~= spec_d001_message(log@[k as int]));
            }
            let mut fix: Vec<char> = Vec::new();
            push_str(&mut fix, "Add to the configuration permissions: ");
            let mut fixes: Vec<String> = Vec::new();
            let mut j: usize = 0;
            while j < unique.len()
                invariant
                    j <= unique@.len(),
                    fixes.deep_view() == unique.deep_view().take(j as int).map_values(
                        |tool: Seq<char>| spec_suggest_fix(tool),
                    ),
                decreases unique@.len() - j,
            {
                let ghost pre_f = fixes.deep_view();
                fixes.push(crate::stream::suggest_permission_fix(unique[j].as_str()));
                proof {
                    assert(fixes.deep_view() =~~= pre_f.push(
                        spec_suggest_fix(unique.deep_view()[j as int]),
                    ));
                    assert(unique.deep_view().take(j + 1).map_values(
                        |tool: Seq<char>| spec_suggest_fix(tool),
                    ) =~~= pre_f.push(spec_suggest_fix(unique.deep_view()[j as int])));
                }
                j = j + 1;
            }
            proof {
                assert(unique.deep_view().take(unique.deep_view().len() as int) =~= unique.deep_view());
            }
            crate::context::push_join_comma_pub(&mut fix, &fixes);
            proof {
                assert(fix@ =~= spec_d001_suggestion(log@[k as int]));
            }
            findings.push(
                Finding {
                    severity: Severity::Error,
                    code: "D001".to_owned(),
                    message: string_from_chars(&msg),
                    suggestion: Some(string_from_chars(&fix)),
                },
            );
            proof {
                reveal_strlit("D001");
                assert(spec_tags(findings@) =~= pre.push(("D001"@, Severity::Error)));
                assert(spec_tags(findings@) + spec_d001_tags(log@, k + 1) =~= pre + (seq![
                    ("D001"@, Severity::Error),
                ] + spec_d001_tags(log@, k + 1)));
                assert(spec_d001_entries(log@, k as int) == seq![
                    (spec_d001_message(log@[k as int]), spec_d001_suggestion(log@[k as int])),
                ] + spec_d001_entries(log@, k + 1));
                assert(entries[pre_len as int] == (
                    spec_d001_message(log@[k as int]),
                    spec_d001_suggestion(log@[k as int]),
                )) by {
                    assert(entries == entries.take(pre_len as int) + spec_d001_entries(
                        log@,
                        k as int,
                    ));
                }
                assert(entries =~= entries.take(findings@.len() as int) + spec_d001_entries(
                    log@,
                    k + 1,
                ));
            }
        } else {
            proof {
                assert(spec_d001_tags(log@, k as int) =~= Seq::<(Seq<char>, Severity)>::empty()
                    + spec_d001_tags(log@, k + 1));
                assert(spec_d001_entries(log@, k as int) =~= Seq::<(Seq<char>, Seq<char>)>::empty()
                    + spec_d001_entries(log@, k + 1));
            }
        }
        k = k + 1;
    }
    proof {
        assert(spec_d001_tags(log@, log@.len() as int) =~= Seq::<(Seq<char>, Severity)>::empty());
        assert(spec_tags(findings@) =~= spec_tags(findings@) + spec_d001_tags(
            log@,
            log@.len() as int,
        ));
        assert(spec_d001_entries(log@, log@.len() as int) =~= Seq::<
            (Seq<char>, Seq<char>),
        >::empty());
    }
    findings
}

/// Cycle health: for each cycle, a warning when most of at least two runs
/// failed, and an aggregated warning when runs exceeded five dollars.
#[verifier::rlimit(60)]
fn check_cycle_health(log: &Vec<CycleOutcome>, findings: &mut Vec<Finding>)
    requires
        log@.len() <= u64::MAX,
    ensures
        spec_tags(final(findings)@) == spec_tags(old(findings)@) + spec_health_tags(log@, 0),
{
    let mut k: usize = 0;
    while k < log.len()
        invariant
            k <= log@.len(),
            log@.len() <= u64::MAX,
            spec_tags(findings@) + spec_health_tags(log@, k as int) == spec_tags(old(findings)@)
                + spec_health_tags(log@, 0),
        decreases log@.len() - k,
    {
        let ghost pre = spec_tags(findings@);
        if is_first_occurrence(log, k) {
            let name = chars_of(log[k].cycle.as_str());
            let total = count_name(log, &name);
            let failed = count_failed(log, &name);
            let ghost emitted_before = spec_tags(findings@);
            if total >= 2 && (failed as u128) * 2 > total as u128 {
                let mut msg: Vec<char> = Vec::new();
                push_str(&mut msg, "Cycle '");
                push_string(&mut msg, &log[k].cycle);
                push_str(&mut msg, "' failed ");
                push_u64(&mut msg, failed);
                push_str(&mut msg, "/");
                push_u64(&mut msg, total);
                push_str(&mut msg, " times");
                findings.push(
                    Finding {
                        severity: Severity::Warning,
                        code: "D002".to_owned(),
                        message: string_from_chars(&msg),
                        suggestion: Some(
                            "Check the cycle prompt and permissions, and run the cycle by itself to debug.".to_owned(),
                        ),
                    },
                );
                proof {
                    assert(spec_tags(findings@) =~= emitted_before.push(
                        ("D002"@, Severity::Warning),
                    ));
                }
            }
            let ghost after_d002 = spec_tags(findings@);
            let costly = count_costly(log, &name);
            if costly > 0 {
                let mut total_cost: u64 = 0;
                let mut max_cost: u64 = 0;
                let mut j: usize = 0;
                while j < log.len()
                    invariant
                        j <= log@.len(),
                        name@ == log@[k as int].cycle@,
                        k < log@.len(),
                    decreases log@.len() - j,
                {
                    let cn = chars_of(log[j].cycle.as_str());
                    let cost = match log[j].total_cost_micros {
                        Some(c) => c,
                        None => 0,
                    };
                    if eq_chars(&cn, &name) && cost > 5000000 {
                        total_cost = crate::executor::sat_add_u64(total_cost, cost);
                        if cost > max_cost {
                            max_cost = cost;
                        }
                    }
                    j = j + 1;
                }
                let mean: u64 = total_cost / costly;
                let mut msg: Vec<char> = Vec::new();
                push_str(&mut msg, "Cycle '");
                push_string(&mut msg, &log[k].cycle);
                push_str(&mut msg, "' had ");
                push_u64(&mut msg, costly);
                push_str(&mut msg, " run(s) exceeding $5.00 (max $");
                crate::display::push_usd2(&mut msg, max_cost);
                push_str(&mut msg, ", avg $");
                crate::display::push_usd2(&mut msg, mean);
                push_str(&mut msg, ")");
                findings.push(
                    Finding {
                        severity: Severity::Warning,
                        code: "D003".to_owned(),
                        message: string_from_chars(&msg),
                        suggestion: Some(
                            "Consider breaking the task into smaller subtasks or adding constraints to the prompt.".to_owned(),
                        ),
                    },
                );
                proof {
                    assert(spec_tags(findings@) =~= after_d002.push(
                        ("D003"@, Severity::Warning),
                    ));
                }
            }
            proof {
                assert(spec_tags(findings@) =~= pre + spec_health_tags_at(log@, k as int));
                assert(spec_tags(findings@) + spec_health_tags(log@, k + 1) =~= pre + (
                spec_health_tags_at(log@, k as int) + spec_health_tags(log@, k + 1)));
            }
        } else {
            proof {
                assert(spec_health_tags(log@, k as int) =~= Seq::<(Seq<char>, Severity)>::empty()
                    + spec_health_tags(log@, k + 1));
            }
        }
        k = k + 1;
    }
    proof {
        assert(spec_health_tags(log@, log@.len() as int) =~= Seq::<
            (Seq<char>, Severity),
        >::empty());
        assert(spec_tags(findings@) =~= spec_tags(findings@) + spec_health_tags(
            log@,
            log@.len() as int,
        ));
    }
}

/// Configuration lint: triggered cycles without a frequency constraint,
/// and cycles that end up with no permissions at all.
fn check_config_lint(config: &FlowConfig, findings: &mut Vec<Finding>)
    ensures
        spec_tags(final(findings)@) == spec_tags(old(findings)@) + spec_lint_tags(*config, 0),
{
    let mut k: usize = 0;
    while k < config.cycles.len()
        invariant
            k <= config.cycles@.len(),
            spec_tags(findings@) + spec_lint_tags(*config, k as int) == spec_tags(old(findings)@)
                + spec_lint_tags(*config, 0),
        decreases config.cycles@.len() - k,
    {
        let ghost pre = spec_tags(findings@);
        let cycle = &config.cycles[k];
        if cycle.after.len() > 0 && cycle.min_interval.is_none() {
            let mut msg: Vec<char> = Vec::new();
            push_str(&mut msg, "Cycle '");
            push_string(&mut msg, &cycle.name);
            push_str(&mut msg, "' triggers after another cycle but has no min_interval");
            let mut fix: Vec<char> = Vec::new();
            push_str(&mut fix, "Add `min_interval = 3` to '");
            push_string(&mut fix, &cycle.name);
            push_str(&mut fix, "' in the configuration to avoid redundant runs");
            findings.push(
                Finding {
                    severity: Severity::Info,
                    code: "D004".to_owned(),
                    message: string_from_chars(&msg),
                    suggestion: Some(string_from_chars(&fix)),
                },
            );
        }
        let ghost after_d004 = spec_tags(findings@);
        proof {
            assert(after_d004 =~= pre + (if config.cycles@[k as int].after@.len() > 0
                && config.cycles@[k as int].min_interval is None {
                seq![("D004"@, Severity::Info)]
            } else {
                Seq::<(Seq<char>, Severity)>::empty()
            }));
        }
        if cycle.permissions.len() == 0 && config.global.permissions.len() == 0 {
            let mut msg: Vec<char> = Vec::new();
            push_str(&mut msg, "Cycle '");
            push_string(&mut msg, &cycle.name);
            push_str(&mut msg, "' has no permissions (global or cycle-level)");
            findings.push(
                Finding {
                    severity: Severity::Warning,
                    code: "D005".to_owned(),
                    message: string_from_chars(&msg),
                    suggestion: Some(
                        "Add at least `Read` to the global permissions in the configuration.".to_owned(),
                    ),
                },
            );
        }
        proof {
            assert(spec_tags(findings@) =~= after_d004 + (if config.cycles@[
                k as int
            ].permissions@.len() == 0 && config.global.permissions@.len() == 0 {
                seq![("D005"@, Severity::Warning)]
            } else {
                Seq::<(Seq<char>, Severity)>::empty()
            }));
            assert(spec_tags(findings@) + spec_lint_tags(*config, k + 1) =~= pre + spec_lint_tags(
                *config,
                k as int,
            ));
        }
        k = k + 1;
    }
    proof {
        assert(spec_lint_tags(*config, config.cycles@.len() as int) =~= Seq::<
            (Seq<char>, Severity),
        >::empty());
        assert(spec_tags(findings@) =~= spec_tags(findings@) + spec_lint_tags(
            *config,
            config.cycles@.len() as int,
        ));
    }
}

fn runs_iters(log: &Vec<CycleOutcome>, name: &Vec<char>) -> (r: Vec<u32>)
    ensures
        r@ == spec_runs_iters(log@, name@),
{
    let mut out: Vec<u32> = Vec::new();
    let mut k: usize = 0;
    while k < log.len()
        invariant
            k <= log@.len(),
            out@ == spec_runs_iters(log@.take(k as int), name@),
        decreases log@.len() - k,
    {
        proof {
            assert(log@.take(k + 1).drop_last() =~= log@.take(k as int));
            assert(log@.take(k + 1).last() == log@[k as int]);
        }
        let cn = chars_of(log[k].cycle.as_str());
        if eq_chars(&cn, name) {
            out.push(log[k].iteration);
        }
        k = k + 1;
    }
    proof {
        assert(log@.take(log@.len() as int) =~= log@);
    }
    out
}

fn close_runs(iters: &Vec<u32>) -> (r: u64)
    requires
        iters@.len() <= u64::MAX,
    ensures
        r as nat == spec_close_runs(iters@),
{
    if iters.len() < 2 {
        proof {
            assert(spec_close_runs(iters@) == 0);
        }
        return 0;
    }
    let mut n: u64 = 0;
    let mut k: usize = 2;
    proof {
        assert(iters@.take(2).len() == 2);
        assert(spec_close_runs(iters@.take(1)) == 0);
        assert(iters@.take(2).drop_last() =~= iters@.take(1));
    }
    n = if iters[1] as i64 - iters[0] as i64 <= 1 {
        proof {
            assert(iters@.take(2).last() == iters@[1]);
            assert(iters@.take(2)[0] == iters@[0]);
        }
        1
    } else {
        proof {
            assert(iters@.take(2).last() == iters@[1]);
            assert(iters@.take(2)[0] == iters@[0]);
        }
        0
    };
    while k < iters.len()
        invariant
            2 <= k <= iters@.len(),
            iters@.len() <= u64::MAX,
            n as nat == spec_close_runs(iters@.take(k as int)),
            n < k,
        decreases iters@.len() - k,
    {
        proof {
            assert(iters@.take(k + 1).drop_last() =~= iters@.take(k as int));
            assert(iters@.take(k + 1).last() == iters@[k as int]);
            assert(iters@.take(k + 1)[k - 1] == iters@[k - 1]);
        }
        if iters[k] as i64 - iters[k - 1] as i64 <= 1 {
            n = n + 1;
        }
        k = k + 1;
    }
    proof {
        assert(iters@.take(iters@.len() as int) =~= iters@);
    }
    n
}

/// Frequency tuning: a suggestion when a triggered cycle keeps running
/// within one iteration of its previous run and nothing spaces it out.
fn check_frequency_tuning(config: &FlowConfig, log: &Vec<CycleOutcome>, findings: &mut Vec<Finding>)
    requires
        log@.len() <= u64::MAX,
    ensures
        spec_tags(final(findings)@) == spec_tags(old(findings)@) + spec_freq_tags(
            *config,
            log@,
            0,
        ),
{
    let mut k: usize = 0;
    while k < config.cycles.len()
        invariant
            k <= config.cycles@.len(),
            log@.len() <= u64::MAX,
            spec_tags(findings@) + spec_freq_tags(*config, log@, k as int) == spec_tags(
                old(findings)@,
            ) + spec_freq_tags(*config, log@, 0),
        decreases config.cycles@.len() - k,
    {
        let ghost pre = spec_tags(findings@);
        let cycle = &config.cycles[k];
        let mut fired = false;
        if cycle.after.len() > 0 {
            let name = chars_of(cycle.name.as_str());
            let iters = runs_iters(log, &name);
            proof {
                lemma_runs_iters_len(log@, name@);
            }
            if iters.len() >= 2 {
                let close = close_runs(&iters);
                let interval_ok = match cycle.min_interval {
                    None => true,
                    Some(v) => v <= 1,
                };
                if close > 0 && interval_ok {
                    let mut msg: Vec<char> = Vec::new();
                    push_str(&mut msg, "Cycle '");
                    push_string(&mut msg, &cycle.name);
                    push_str(&mut msg, "' ran ");
                    push_u64(&mut msg, close);
                    push_str(&mut msg, " consecutive time(s) with <=1 iteration gap");
                    let mut fix: Vec<char> = Vec::new();
                    push_str(&mut fix, "Consider setting `min_interval = 3` for '");
                    push_string(&mut fix, &cycle.name);
                    push_str(&mut fix, "' to space out runs");
                    findings.push(
                        Finding {
                            severity: Severity::Info,
                            code: "D006".to_owned(),
                            message: string_from_chars(&msg),
                            suggestion: Some(string_from_chars(&fix)),
                        },
                    );
                    fired = true;
                }
            }
        }
        proof {
            if fired {
                assert(spec_tags(findings@) =~= pre.push(("D006"@, Severity::Info)));
                assert(spec_tags(findings@) + spec_freq_tags(*config, log@, k + 1) =~= pre + (
                seq![("D006"@, Severity::Info)] + spec_freq_tags(*config, log@, k + 1)));
            } else {
                assert(spec_freq_tags(*config, log@, k as int) =~= Seq::<
                    (Seq<char>, Severity),
                >::empty() + spec_freq_tags(*config, log@, k + 1));
            }
        }
        k = k + 1;
    }
    proof {
        assert(spec_freq_tags(*config, log@, config.cycles@.len() as int) =~= Seq::<
            (Seq<char>, Severity),
        >::empty());
        assert(spec_tags(findings@) =~= spec_tags(findings@) + spec_freq_tags(
            *config,
            log@,
            config.cycles@.len() as int,
        ));
    }
}

/// The run list is no longer than the log.
proof fn lemma_runs_iters_len(log: Seq<CycleOutcome>, name: Seq<char>)
    ensures
        spec_runs_iters(log, name).len() <= log.len(),
    decreases log.len(),
{
    if log.len() > 0 {
        lemma_runs_iters_len(log.drop_last(), name);
    }
}

/// First-occurrence deduplication of a string list.
fn dedup_strings(v: &Vec<String>) -> (r: Vec<String>)
    ensures
        r.deep_view() == spec_dedup_first(v.deep_view()),
{
    let mut out: Vec<String> = Vec::new();
    proof {
        assert(out.deep_view() =~~= Seq::<Seq<char>>::empty());
        assert(crate::executor::spec_union_first(Seq::<Seq<char>>::empty(), v.deep_view().take(0))
            =~~= Seq::<Seq<char>>::empty());
    }
    crate::executor::union_extend(&mut out, v);
    proof {
        lemma_union_empty_is_dedup(v.deep_view());
    }
    out
}

/// A union into nothing is a first-occurrence deduplication.
proof fn lemma_union_empty_is_dedup(s: Seq<Seq<char>>)
    ensures
        crate::executor::spec_union_first(Seq::empty(), s) == spec_dedup_first(s),
    decreases s.len(),
{
    if s.len() > 0 {
        lemma_union_empty_is_dedup(s.drop_last());
    }
}

fn keep_severity(findings: &Vec<Finding>, sev: Severity) -> (r: Vec<Finding>)
    ensures
        spec_tags(r@) == spec_keep_tags(spec_tags(findings@), sev),
{
    let mut out: Vec<Finding> = Vec::new();
    let mut k: usize = 0;
    proof {
        assert(spec_tags(out@) =~= Seq::<(Seq<char>, Severity)>::empty());
        assert(spec_tags(findings@.take(0)) =~= Seq::<(Seq<char>, Severity)>::empty());
    }
    while k < findings.len()
        invariant
            k <= findings@.len(),
            spec_tags(out@) == spec_keep_tags(spec_tags(findings@.take(k as int)), sev),
        decreases findings@.len() - k,
    {
        let ghost pre = spec_tags(out@);
        proof {
            assert(spec_tags(findings@.take(k + 1)).drop_last() =~= spec_tags(
                findings@.take(k as int),
            ));
            assert(spec_tags(findings@.take(k + 1)).last() == (
                findings@[k as int].code@,
                findings@[k as int].severity,
            ));
        }
        if findings[k].severity == sev {
            out.push(clone_finding(&findings[k]));
            proof {
                assert(spec_tags(out@) =~= pre.push(
                    (findings@[k as int].code@, findings@[k as int].severity),
                ));
            }
        }
        proof {
            assert(spec_tags(out@) =~= spec_keep_tags(spec_tags(findings@.take(k + 1)), sev));
        }
        k = k + 1;
    }
    proof {
        assert(findings@.take(findings@.len() as int) =~= findings@);
    }
    out
}

/// Clone a finding, text for text.
fn clone_finding(f: &Finding) -> (r: Finding)
    ensures
        r.severity == f.severity,
        r.code@ == f.code@,
        r.message@ == f.message@,
        match f.suggestion {
            Some(ref s) => r.suggestion matches Some(rs) && rs@ == s@,
            None => r.suggestion is None,
        },
{
    Finding {
        severity: f.severity,
        code: crate::stream::clone_string(&f.code),
        message: crate::stream::clone_string(&f.message),
        suggestion: match &f.suggestion {
            Some(s) => Some(crate::stream::clone_string(s)),
            None => None,
        },
    }
}

/// Append all findings of a list; what was already there stays untouched.
fn append_findings(out: &mut Vec<Finding>, add: Vec<Finding>)
    ensures
        spec_tags(final(out)@) == spec_tags(old(out)@) + spec_tags(add@),
        final(out)@.take(old(out)@.len() as int) == old(out)@,
        final(out)@.len() == old(out)@.len() + add@.len(),
{
    let mut add = add;
    let ghost added = spec_tags(add@);
    let mut k: usize = 0;
    let n = add.len();
    while k < n
        invariant
            k <= n == add@.len(),
            added == spec_tags(add@),
            spec_tags(out@) == spec_tags(old(out)@) + spec_tags(add@).take(k as int),
            out@.len() == old(out)@.len() + k,
            out@.take(old(out)@.len() as int) == old(out)@,
        decreases n - k,
    {
        let ghost pre = spec_tags(out@);
        let ghost pre_vals = out@;
        out.push(clone_finding(&add[k]));
        proof {
            assert(spec_tags(out@) =~= pre.push(spec_tags(add@)[k as int]));
            assert(spec_tags(old(out)@) + spec_tags(add@).take(k + 1) =~= pre.push(
                spec_tags(add@)[k as int],
            ));
            assert(out@.take(old(out)@.len() as int) =~= pre_vals.take(old(out)@.len() as int));
        }
        k = k + 1;
    }
    proof {
        assert(spec_tags(add@).take(add@.len() as int) =~= spec_tags(add@));
    }
}

/// Run every check over the configuration and the log, and return the
/// findings sorted by severity, each severity keeping its own order. The
/// contract pins which finding codes come out, in what order, and the full
/// message and suggestion text of every denial finding.
#[verifier::rlimit(100)]
#[verifier::spinoff_prover]
pub fn diagnose(config: &FlowConfig, log: &Vec<CycleOutcome>) -> (r: DiagnosticReport)
    requires
        log@.len() <= u64::MAX,
    ensures
        spec_tags(r.findings@) == spec_sorted_tags(spec_all_tags(*config, log@)),
        forall|i: int, j: int|
            0 <= i < j < r.findings@.len() ==> spec_sev_rank(
                (#[trigger] r.findings@[i]).severity,
            ) <= spec_sev_rank((#[trigger] r.findings@[j]).severity),
        r.findings@.len() >= spec_d001_entries(log@, 0).len(),
        forall|j: int|
            0 <= j < spec_d001_entries(log@, 0).len() ==> (#[trigger] r.findings@[j]).severity
                == Severity::Error && r.findings@[j].code@ == "D001"@ && r.findings@[j].message@
                == spec_d001_entries(log@, 0)[j].0 && (r.findings@[j].suggestion matches Some(s)
                && s@ == spec_d001_entries(log@, 0)[j].1),
{
    let errors = check_permission_denials(log);
    let mut rest: Vec<Finding> = Vec::new();
    check_cycle_health(log, &mut rest);
    check_config_lint(config, &mut rest);
    check_frequency_tuning(config, log, &mut rest);
    let ghost d001 = spec_d001_tags(log@, 0);
    let ghost resttags = spec_health_tags(log@, 0) + spec_lint_tags(*config, 0) + spec_freq_tags(
        *config,
        log@,
        0,
    );
    proof {
        assert(spec_tags(rest@) == resttags);
        assert(spec_all_tags(*config, log@) == d001 + resttags) by {
            assert(d001 + resttags =~= spec_all_tags(*config, log@));
        }
    }
    let warnings = keep_severity(&rest, Severity::Warning);
    let infos = keep_severity(&rest, Severity::Info);
    let ghost e_len = errors@.len();
    let ghost entries = spec_d001_entries(log@, 0);
    let mut findings = errors;
    append_findings(&mut findings, warnings);
    append_findings(&mut findings, infos);
    proof {
        let all = spec_all_tags(*config, log@);
        lemma_d001_tags_sev(log@, 0);
        lemma_health_tags_sev(log@, 0);
        lemma_lint_tags_sev(*config, 0);
        lemma_freq_tags_sev(*config, log@, 0);
        assert forall|i: int| 0 <= i < resttags.len() implies (#[trigger] resttags[i]).1
            != Severity::Error by {
            let h = spec_health_tags(log@, 0);
            let l = spec_lint_tags(*config, 0);
            let f = spec_freq_tags(*config, log@, 0);
            if i < h.len() {
                assert(resttags[i] == h[i]);
            } else if i < h.len() + l.len() {
                assert(resttags[i] == l[i - h.len()]);
            } else {
                assert(resttags[i] == f[i - h.len() - l.len()]);
            }
        }
        // the sorted tag sequence decomposes into the three blocks built here
        lemma_keep_tags_concat(d001, resttags, Severity::Error);
        lemma_keep_tags_concat(d001, resttags, Severity::Warning);
        lemma_keep_tags_concat(d001, resttags, Severity::Info);
        lemma_keep_tags_all(d001, Severity::Error);
        lemma_keep_tags_none(resttags, Severity::Error);
        assert forall|i: int| 0 <= i < d001.len() implies (#[trigger] d001[i]).1
            != Severity::Warning && d001[i].1 != Severity::Info by {
            assert(d001[i].1 == Severity::Error);
        }
        lemma_keep_tags_none(d001, Severity::Warning);
        lemma_keep_tags_none(d001, Severity::Info);
        assert(spec_keep_tags(all, Severity::Error) =~= spec_tags(errors@));
        assert(spec_keep_tags(all, Severity::Warning) =~= spec_tags(warnings@));
        assert(spec_keep_tags(all, Severity::Info) =~= spec_tags(infos@));
        assert(spec_tags(findings@) =~= spec_tags(errors@) + spec_tags(warnings@) + spec_tags(
            infos@,
        ));
        assert(spec_tags(findings@) =~= spec_sorted_tags(all));
        // the error prefix is the denial findings, untouched by the appends
        assert(findings@.take(e_len as int) =~= errors@) by {
            assert(findings@.take(e_len as int) =~= findings@.take(
                (e_len + warnings@.len()) as int,
            ).take(e_len as int));
        }
        assert forall|j: int|
            0 <= j < entries.len() implies (#[trigger] findings@[j]).severity == Severity::Error
                && findings@[j].code@ == "D001"@ && findings@[j].message@ == entries[j].0 && (
            findings@[j].suggestion matches Some(s) && s@ == entries[j].1) by {
            assert(findings@[j] == errors@[j]);
        }
        // sortedness, from the three blocks' severities
        lemma_keep_tags_sev(resttags, Severity::Warning);
        lemma_keep_tags_sev(resttags, Severity::Info);
        assert forall|i: int, j: int|
            0 <= i < j < findings@.len() implies spec_sev_rank(
            (#[trigger] findings@[i]).severity,
        ) <= spec_sev_rank((#[trigger] findings@[j]).severity) by {
            let tags = spec_tags(findings@);
            let e = spec_tags(errors@);
            let w = spec_tags(warnings@);
            let f = spec_tags(infos@);
            assert(tags[i] == (findings@[i].code@, findings@[i].severity));
            assert(tags[j] == (findings@[j].code@, findings@[j].severity));
            if i < e.len() {
                assert(tags[i] == e[i]);
                assert(e[i].1 == Severity::Error) by {
                    assert(e[i] == d001[i]);
                }
            } else if i < e.len() + w.len() {
                assert(tags[i] == w[i - e.len()]);
                assert(w == spec_keep_tags(resttags, Severity::Warning));
            } else {
                assert(tags[i] == f[i - e.len() - w.len()]);
                assert(f == spec_keep_tags(resttags, Severity::Info));
            }
            if j < e.len() {
                assert(tags[j] == e[j]);
                assert(e[j].1 == Severity::Error) by {
                    assert(e[j] == d001[j]);
                }
            } else if j < e.len() + w.len() {
                assert(tags[j] == w[j - e.len()]);
                assert(w == spec_keep_tags(resttags, Severity::Warning));
            } else {
                assert(tags[j] == f[j - e.len() - w.len()]);
                assert(f == spec_keep_tags(resttags, Severity::Info));
            }
        }
    }
    DiagnosticReport { findings }
}

/// Keeping a severity distributes over concatenation.
proof fn lemma_keep_tags_concat(a: Seq<(Seq<char>, Severity)>, b: Seq<(Seq<char>, Severity)>, sev: Severity)
    ensures
        spec_keep_tags(a + b, sev) == spec_keep_tags(a, sev) + spec_keep_tags(b, sev),
    decreases b.len(),
{
    if b.len() == 0 {
        assert(a + b =~= a);
        assert(spec_keep_tags(a, sev) + spec_keep_tags(b, sev) =~= spec_keep_tags(a, sev));
    } else {
        lemma_keep_tags_concat(a, b.drop_last(), sev);
        assert((a + b).drop_last() =~= a + b.drop_last());
        assert((a + b).last() == b.last());
        if b.last().1 == sev {
            assert(spec_keep_tags(a + b, sev) =~= spec_keep_tags(a, sev) + spec_keep_tags(
                b,
                sev,
            ));
        } else {
            assert(spec_keep_tags(a + b, sev) =~= spec_keep_tags(a, sev) + spec_keep_tags(
                b,
                sev,
            ));
        }
    }
}

/// Keeping the severity every tag carries keeps everything.
proof fn lemma_keep_tags_all(tags: Seq<(Seq<char>, Severity)>, sev: Severity)
    requires
        forall|i: int| 0 <= i < tags.len() ==> (#[trigger] tags[i]).1 == sev,
    ensures
        spec_keep_tags(tags, sev) == tags,
    decreases tags.len(),
{
    if tags.len() > 0 {
        assert forall|i: int| 0 <= i < tags.drop_last().len() implies (
        #[trigger] tags.drop_last()[i]).1 == sev by {
            assert(tags.drop_last()[i] == tags[i]);
        }
        lemma_keep_tags_all(tags.drop_last(), sev);
        assert(tags.last().1 == sev);
        assert(spec_keep_tags(tags, sev) =~= tags);
    } else {
        assert(spec_keep_tags(tags, sev) =~= tags);
    }
}

/// Keeping a severity no tag carries keeps nothing.
proof fn lemma_keep_tags_none(tags: Seq<(Seq<char>, Severity)>, sev: Severity)
    requires
        forall|i: int| 0 <= i < tags.len() ==> (#[trigger] tags[i]).1 != sev,
    ensures
        spec_keep_tags(tags, sev) == Seq::<(Seq<char>, Severity)>::empty(),
    decreases tags.len(),
{
    if tags.len() > 0 {
        assert forall|i: int| 0 <= i < tags.drop_last().len() implies (
        #[trigger] tags.drop_last()[i]).1 != sev by {
            assert(tags.drop_last()[i] == tags[i]);
        }
        lemma_keep_tags_none(tags.drop_last(), sev);
        assert(tags.last().1 != sev);
        assert(spec_keep_tags(tags, sev) =~= Seq::<(Seq<char>, Severity)>::empty());
    } else {
        assert(spec_keep_tags(tags, sev) =~= Seq::<(Seq<char>, Severity)>::empty());
    }
}

/// The denial findings are all errors.
proof fn lemma_d001_tags_sev(log: Seq<CycleOutcome>, k: int)
    ensures
        forall|i: int|
            0 <= i < spec_d001_tags(log, k).len() ==> (#[trigger] spec_d001_tags(log, k)[i]).1
                == Severity::Error,
    decreases log.len() - k,
{
    if 0 <= k < log.len() {
        lemma_d001_tags_sev(log, k + 1);
    }
}

/// The health findings are never errors.
proof fn lemma_health_tags_sev(log: Seq<CycleOutcome>, k: int)
    ensures
        forall|i: int|
            0 <= i < spec_health_tags(log, k).len() ==> (#[trigger] spec_health_tags(log, k)[
                i
            ]).1 != Severity::Error,
    decreases log.len() - k,
{
    if 0 <= k < log.len() {
        lemma_health_tags_sev(log, k + 1);
    }
}

/// The configuration findings are never errors.
proof fn lemma_lint_tags_sev(c: FlowConfig, k: int)
    ensures
        forall|i: int|
            0 <= i < spec_lint_tags(c, k).len() ==> (#[trigger] spec_lint_tags(c, k)[i]).1
                != Severity::Error,
    decreases c.cycles@.len() - k,
{
    if 0 <= k < c.cycles@.len() {
        lemma_lint_tags_sev(c, k + 1);
    }
}

/// The frequency findings are never errors.
proof fn lemma_freq_tags_sev(c: FlowConfig, log: Seq<CycleOutcome>, k: int)
    ensures
        forall|i: int|
            0 <= i < spec_freq_tags(c, log, k).len() ==> (#[trigger] spec_freq_tags(c, log, k)[
                i
            ]).1 != Severity::Error,
    decreases c.cycles@.len() - k,
{
    if 0 <= k < c.cycles@.len() {
        lemma_freq_tags_sev(c, log, k + 1);
    }
}

/// Every kept tag carries the kept severity.
proof fn lemma_keep_tags_sev(tags: Seq<(Seq<char>, Severity)>, sev: Severity)
    ensures
        forall|i: int|
            0 <= i < spec_keep_tags(tags, sev).len()
                ==> (#[trigger] spec_keep_tags(tags, sev)[i]).1 == sev,
    decreases tags.len(),
{
    if tags.len() > 0 {
        lemma_keep_tags_sev(tags.drop_last(), sev);
        let kept = spec_keep_tags(tags, sev);
        let pre = spec_keep_tags(tags.drop_last(), sev);
        assert forall|i: int| 0 <= i < kept.len() implies (#[trigger] kept[i]).1 == sev by {
            if i < pre.len() {
                assert(kept[i] == pre[i]);
            } else {
                assert(tags.last().1 == sev);
                assert(kept[i] == tags.last());
            }
        }
    }
}

} // verus!
