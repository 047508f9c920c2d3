//! Preparing cycles and assembling their results.
//!
//! Spawning the agent and pumping its stream happen outside the library;
//! everything that decides or aggregates is here.

use vstd::prelude::*;

use crate::config::{CycleConfig, FlowConfig};
use crate::context::{spec_build_context, spec_inject_context, build_context, inject_context};
use crate::outcome::CycleOutcome;
use crate::permissions::resolve_permissions;
use crate::stream::{EventSpec, StreamAccumulator, StreamEvent};
use crate::text::spec_dedup_first;

verus! {

/// A cycle ready to run: its prompt with context injected, and its
/// resolved permissions.
pub struct PreparedCycle {
    pub cycle_name: String,
    pub prompt: String,
    pub permissions: Vec<String>,
}

/// The outcome of one cycle execution.
pub struct CycleResult {
    /// Name of the executed cycle.
    pub cycle_name: String,
    /// The last step exited with code zero.
    pub success: bool,
    /// The last exit code; none when killed by a signal.
    pub exit_code: Option<i32>,
    /// Captured diagnostics output.
    pub stderr: String,
    /// Total seconds.
    pub duration_secs: u64,
    /// The terminal result text, when one arrived.
    pub result_text: Option<String>,
    /// Total conversation turns, when known.
    pub num_turns: Option<u32>,
    /// Total cost in micro-dollars, when known.
    pub total_cost_micros: Option<u64>,
    /// Permission denials, when known.
    pub permission_denial_count: Option<u32>,
    /// The denied tool names, when any.
    pub permission_denials: Option<Vec<String>>,
    /// Files changed, first-seen order, no duplicates.
    pub files_changed: Vec<String>,
    /// Tests seen passing.
    pub tests_passed: u32,
}

/// Executes cycles against a fixed configuration.
pub struct CycleExecutor {
    pub config: FlowConfig,
}

impl CycleExecutor {
    /// Create an executor over the given configuration.
    pub fn new(config: FlowConfig) -> (r: CycleExecutor)
        ensures
            r.config == config,
    {
        CycleExecutor { config }
    }

    /// Prepare a cycle without history context.
    pub fn prepare(&self, cycle_name: &str) -> (r: Result<PreparedCycle, String>)
        ensures
            match r {
                Ok(p) => exists|i: int|
                    0 <= i < self.config.cycles@.len()
                        && (#[trigger] self.config.cycles@[i]).name@ == cycle_name@
                        && spec_prepared(self.config, self.config.cycles@[i], Seq::empty(), p),
                Err(_) => !crate::config::spec_has_cycle(self.config.cycles@, cycle_name@),
            },
    {
        let empty: Vec<CycleOutcome> = Vec::new();
        let r = self.prepare_with_context(cycle_name, &empty);
        proof {
            assert(empty@ =~= Seq::<CycleOutcome>::empty());
        }
        r
    }

    /// Prepare a cycle: resolve its permissions and inject history context
    /// into its prompt under its context mode.
    pub fn prepare_with_context(&self, cycle_name: &str, log_entries: &Vec<CycleOutcome>) -> (r:
        Result<PreparedCycle, String>)
        ensures
            match r {
                Ok(p) => exists|i: int|
                    0 <= i < self.config.cycles@.len()
                        && (#[trigger] self.config.cycles@[i]).name@ == cycle_name@
                        && spec_prepared(self.config, self.config.cycles@[i], log_entries@, p),
                Err(_) => !crate::config::spec_has_cycle(self.config.cycles@, cycle_name@),
            },
    {
        let cycle = match self.config.get_cycle(cycle_name) {
            Some(c) => c,
            None => {
                return Err("Unknown cycle".to_owned());
            },
        };
        let permissions = resolve_permissions(&self.config.global, cycle);
        let context = build_context(&cycle.context, log_entries);
        let prompt = inject_context(cycle.prompt.as_str(), context);
        Ok(PreparedCycle { cycle_name: cycle_name.to_owned(), prompt, permissions })
    }
}

/// What a prepared cycle holds: the name, the context-injected prompt, and
/// the deduplicated global-then-cycle permissions.
pub open spec fn spec_prepared(
    config: FlowConfig,
    cycle: CycleConfig,
    log: Seq<CycleOutcome>,
    p: PreparedCycle,
) -> bool {
    &&& p.cycle_name@ == cycle.name@
    &&& p.prompt@ == spec_inject_context(cycle.prompt@, spec_build_context(cycle.context, log))
    &&& p.permissions.deep_view() == spec_dedup_first(
        config.global.permissions.deep_view() + cycle.permissions.deep_view(),
    )
}

/// Build a cycle result from one execution's raw outputs and accumulator:
/// success is exit code zero, and the terminal result event, when present,
/// supplies text, turns, cost and denials, the denial list omitted when
/// empty.
pub fn build_cycle_result(
    cycle_name: String,
    exit_code: Option<i32>,
    stderr: String,
    duration_secs: u64,
    accumulator: &StreamAccumulator,
) -> (r: CycleResult)
    ensures
        r.cycle_name == cycle_name,
        r.success == (exit_code == Some(0i32)),
        r.exit_code == exit_code,
        r.stderr == stderr,
        r.duration_secs == duration_secs,
        match accumulator@.result {
            Some(EventSpec::Result { result_text, num_turns, permission_denials, .. }) => {
                &&& r.result_text matches Some(t) && t@ == result_text
                &&& r.num_turns == Some(num_turns)
                &&& match accumulator@.result {
                    Some(EventSpec::Result { total_cost_micros, .. }) => r.total_cost_micros
                        == Some(total_cost_micros),
                    _ => false,
                }
                &&& r.permission_denial_count matches Some(d) && d as nat == (
                if permission_denials.len() > u32::MAX {
                    u32::MAX as nat
                } else {
                    permission_denials.len()
                })
                &&& (permission_denials.len() == 0 ==> r.permission_denials is None)
                &&& (permission_denials.len() > 0 ==> (r.permission_denials matches Some(pd)
                    && pd.deep_view() == permission_denials))
            },
            _ => r.result_text is None && r.num_turns is None && r.total_cost_micros is None
                && r.permission_denial_count is None && r.permission_denials is None,
        },
        r.files_changed.deep_view() == accumulator@.files_changed,
        r.tests_passed == accumulator@.tests_passed,
{
    let mut result_text: Option<String> = None;
    let mut num_turns_o: Option<u32> = None;
    let mut cost_o: Option<u64> = None;
    let mut denial_count: Option<u32> = None;
    let mut denials: Option<Vec<String>> = None;
    match &accumulator.result {
        Some(ev) => {
            match ev {
                StreamEvent::Result {
                    result_text: rt,
                    num_turns,
                    total_cost_micros,
                    permission_denials,
                    ..
                } => {
                    result_text = Some(crate::stream::clone_string(rt));
                    num_turns_o = Some(*num_turns);
                    cost_o = Some(*total_cost_micros);
                    let dc: u32 = if permission_denials.len() > 0xffff_ffff {
                        u32::MAX
                    } else {
                        proof {
                            assert(permission_denials.deep_view().len()
                                == permission_denials@.len());
                        }
                        permission_denials.len() as u32
                    };
                    denial_count = Some(dc);
                    if permission_denials.len() > 0 {
                        let mut pd: Vec<String> = Vec::new();
                        let mut k: usize = 0;
                        while k < permission_denials.len()
                            invariant
                                k <= permission_denials@.len(),
                                pd.deep_view() == permission_denials.deep_view().take(k as int),
                            decreases permission_denials@.len() - k,
                        {
                            let ghost pre = pd.deep_view();
                            pd.push(crate::stream::clone_string(&permission_denials[k]));
                            proof {
                                assert(pd.deep_view() =~~= pre.push(
                                    permission_denials@[k as int]@,
                                ));
                                assert(permission_denials.deep_view().take(k + 1) =~~= pre.push(
                                    permission_denials@[k as int]@,
                                ));
                            }
                            k = k + 1;
                        }
                        proof {
                            assert(pd.deep_view() =~~= permission_denials.deep_view());
                        }
                        denials = Some(pd);
                    }
                },
                _ => {},
            }
        },
        None => {},
    }
    let mut files: Vec<String> = Vec::new();
    let mut k: usize = 0;
    while k < accumulator.files_changed.len()
        invariant
            k <= accumulator.files_changed@.len(),
            files.deep_view() == accumulator.files_changed.deep_view().take(k as int),
        decreases accumulator.files_changed@.len() - k,
    {
        let ghost pre = files.deep_view();
        files.push(crate::stream::clone_string(&accumulator.files_changed[k]));
        proof {
            assert(files.deep_view() =~~= pre.push(accumulator.files_changed@[k as int]@));
            assert(accumulator.files_changed.deep_view().take(k + 1) =~~= pre.push(
                accumulator.files_changed@[k as int]@,
            ));
        }
        k = k + 1;
    }
    proof {
        assert(files.deep_view() =~~= accumulator.files_changed.deep_view());
    }
    let success = match exit_code {
        Some(c) => c == 0,
        None => false,
    };
    CycleResult {
        cycle_name,
        success,
        exit_code,
        stderr,
        duration_secs,
        result_text,
        num_turns: num_turns_o,
        total_cost_micros: cost_o,
        permission_denial_count: denial_count,
        permission_denials: denials,
        files_changed: files,
        tests_passed: accumulator.tests_passed,
    }
}

/// Running totals while a multi-step cycle executes.
pub struct StepTotals {
    /// Sum of step durations, saturating.
    pub duration_secs: u64,
    /// Sum of turns, saturating.
    pub turns: u32,
    /// Sum of costs in micro-dollars, saturating.
    pub cost_micros: u64,
    /// Sum of denial counts, saturating.
    pub denials: u32,
    /// All denied tool names, in order.
    pub denial_names: Vec<String>,
    /// Union of changed files, first-seen order.
    pub files_changed: Vec<String>,
    /// Sum of passed tests, saturating.
    pub tests_passed: u32,
    /// The last step's result text.
    pub last_result_text: Option<String>,
    /// The last step's exit code.
    pub last_exit_code: Option<i32>,
    /// Stderr chunks joined with newlines.
    pub stderr: String,
}

impl StepTotals {
    /// Fresh totals.
    pub fn new() -> (r: StepTotals)
        ensures
            r.duration_secs == 0 && r.turns == 0 && r.cost_micros == 0 && r.denials == 0,
            r.denial_names.deep_view() == Seq::<Seq<char>>::empty(),
            r.files_changed.deep_view() == Seq::<Seq<char>>::empty(),
            r.tests_passed == 0,
            r.last_result_text is None,
            r.last_exit_code is None,
            r.stderr@ == Seq::<char>::empty(),
    {
        let r = StepTotals {
            duration_secs: 0,
            turns: 0,
            cost_micros: 0,
            denials: 0,
            denial_names: Vec::new(),
            files_changed: Vec::new(),
            tests_passed: 0,
            last_result_text: None,
            last_exit_code: None,
            stderr: String::new(),
        };
        proof {
            assert(r.denial_names.deep_view() =~~= Seq::<Seq<char>>::empty());
            assert(r.files_changed.deep_view() =~~= Seq::<Seq<char>>::empty());
        }
        r
    }

    /// Fold one step's outputs into the totals: durations, turns, cost,
    /// denial counts and tests add with saturation; denied names append;
    /// changed files join the union in first-seen order; the result text and
    /// exit code of this step replace the previous ones; non-empty stderr
    /// joins with a newline.
    pub fn absorb(
        &mut self,
        accumulator: &StreamAccumulator,
        stderr: &str,
        exit_code: Option<i32>,
        duration_secs: u64,
    )
        ensures
            final(self).duration_secs as nat == spec_sat_add_u64(
                old(self).duration_secs,
                duration_secs as nat,
            ),
            final(self).last_exit_code == exit_code,
            final(self).tests_passed as nat == crate::stream::spec_sat_add_u32(
                old(self).tests_passed,
                accumulator@.tests_passed as nat,
            ) as nat,
            final(self).stderr@ == (if stderr@.len() == 0 {
                old(self).stderr@
            } else if old(self).stderr@.len() == 0 {
                stderr@
            } else {
                old(self).stderr@ + seq!['\n'] + stderr@
            }),
            final(self).files_changed.deep_view() == spec_union_first(
                old(self).files_changed.deep_view(),
                accumulator@.files_changed,
            ),
            match accumulator@.result {
                Some(EventSpec::Result { result_text, num_turns, permission_denials, .. }) => {
                    &&& final(self).last_result_text matches Some(t) && t@ == result_text
                    &&& final(self).turns as nat == crate::stream::spec_sat_add_u32(
                        old(self).turns,
                        num_turns as nat,
                    ) as nat
                    &&& match accumulator@.result {
                        Some(EventSpec::Result { total_cost_micros, .. }) => final(self).cost_micros
                            as nat == spec_sat_add_u64(
                            old(self).cost_micros,
                            total_cost_micros as nat,
                        ),
                        _ => false,
                    }
                    &&& final(self).denials as nat == crate::stream::spec_sat_add_u32(
                        old(self).denials,
                        if permission_denials.len() > u32::MAX {
                            u32::MAX as nat
                        } else {
                            permission_denials.len()
                        },
                    ) as nat
                    &&& final(self).denial_names.deep_view() == old(self).denial_names.deep_view()
                        + permission_denials
                },
                _ => final(self).last_result_text == old(self).last_result_text
                    && final(self).turns == old(self).turns
                    && final(self).cost_micros == old(self).cost_micros
                    && final(self).denials == old(self).denials
                    && final(self).denial_names.deep_view() == old(self).denial_names.deep_view(),
            },
    {
        self.duration_secs = sat_add_u64(self.duration_secs, duration_secs);
        self.last_exit_code = exit_code;
        self.tests_passed = sat_add_u32(self.tests_passed, accumulator.tests_passed);
        if !stderr.is_empty() {
            if self.stderr.as_str().is_empty() {
                self.stderr = stderr.to_owned();
            } else {
                let mut joined: Vec<char> = Vec::new();
                crate::text::push_string(&mut joined, &self.stderr);
                joined.push('\n');
                crate::text::push_str(&mut joined, stderr);
                proof {
                    assert(joined@ =~= old(self).stderr@ + seq!['\n'] + stderr@);
                }
                self.stderr = crate::text::string_from_chars(&joined);
            }
        }
        union_extend(&mut self.files_changed, &accumulator.files_changed);
        proof {
            assert(accumulator@.files_changed == accumulator.files_changed.deep_view());
        }
        match &accumulator.result {
            Some(ev) => match ev {
                StreamEvent::Result {
                    result_text,
                    num_turns,
                    total_cost_micros,
                    permission_denials,
                    ..
                } => {
                    self.last_result_text = Some(crate::stream::clone_string(result_text));
                    self.turns = sat_add_u32(self.turns, *num_turns);
                    self.cost_micros = sat_add_u64(self.cost_micros, *total_cost_micros);
                    let dc: u32 = if permission_denials.len() > 0xffff_ffff {
                        u32::MAX
                    } else {
                        proof {
                            assert(permission_denials.deep_view().len()
                                == permission_denials@.len());
                        }
                        permission_denials.len() as u32
                    };
                    self.denials = sat_add_u32(self.denials, dc);
                    extend_strings(&mut self.denial_names, permission_denials);
                },
                _ => {},
            },
            None => {},
        }
    }

    /// Close the totals into a cycle result: success is the last exit code
    /// being zero, and zero totals are reported as absent.
    pub fn into_result(self, cycle_name: String) -> (r: CycleResult)
        ensures
            r.cycle_name == cycle_name,
            r.success == (self.last_exit_code == Some(0i32)),
            r.exit_code == self.last_exit_code,
            r.stderr == self.stderr,
            r.duration_secs == self.duration_secs,
            r.result_text == self.last_result_text,
            r.num_turns == (if self.turns > 0 {
                Some(self.turns)
            } else {
                None
            }),
            r.total_cost_micros == (if self.cost_micros > 0 {
                Some(self.cost_micros)
            } else {
                None
            }),
            r.permission_denial_count == (if self.denials > 0 {
                Some(self.denials)
            } else {
                None
            }),
            (self.denial_names.deep_view().len() == 0 ==> r.permission_denials is None),
            (self.denial_names.deep_view().len() > 0 ==> (r.permission_denials matches Some(pd)
                && pd.deep_view() == self.denial_names.deep_view())),
            r.files_changed == self.files_changed,
            r.tests_passed == self.tests_passed,
    {
        let success = match self.last_exit_code {
            Some(c) => c == 0,
            None => false,
        };
        let denials_empty = self.denial_names.len() == 0;
        proof {
            assert(self.denial_names.deep_view().len() == self.denial_names@.len());
        }
        CycleResult {
            cycle_name,
            success,
            exit_code: self.last_exit_code,
            stderr: self.stderr,
            duration_secs: self.duration_secs,
            result_text: self.last_result_text,
            num_turns: if self.turns > 0 {
                Some(self.turns)
            } else {
                None
            },
            total_cost_micros: if self.cost_micros > 0 {
                Some(self.cost_micros)
            } else {
                None
            },
            permission_denial_count: if self.denials > 0 {
                Some(self.denials)
            } else {
                None
            },
            permission_denials: if denials_empty {
                None
            } else {
                Some(self.denial_names)
            },
            files_changed: self.files_changed,
            tests_passed: self.tests_passed,
        }
    }
}

/// Append every entry of `add` that is not yet present, in order.
pub fn union_extend(out: &mut Vec<String>, add: &Vec<String>)
    ensures
        final(out).deep_view() == spec_union_first(old(out).deep_view(), add.deep_view()),
{
    let mut k: usize = 0;
    while k < add.len()
        invariant
            k <= add@.len(),
            out.deep_view() == spec_union_first(
                old(out).deep_view(),
                add.deep_view().take(k as int),
            ),
        decreases add@.len() - k,
    {
        proof {
            assert(add.deep_view().take(k + 1).drop_last() =~= add.deep_view().take(k as int));
            assert(add.deep_view().take(k + 1).last() == add.deep_view()[k as int]);
        }
        if !crate::stream::contains_string(out, &add[k]) {
            let ghost pre = out.deep_view();
            out.push(crate::stream::clone_string(&add[k]));
            proof {
                assert(out.deep_view() =~~= pre.push(add.deep_view()[k as int]));
            }
        }
        k = k + 1;
    }
    proof {
        assert(add.deep_view().take(add.deep_view().len() as int) =~= add.deep_view());
    }
}

/// Append all entries of `add`, in order.
pub fn extend_strings(out: &mut Vec<String>, add: &Vec<String>)
    ensures
        final(out).deep_view() == old(out).deep_view() + add.deep_view(),
{
    let mut k: usize = 0;
    while k < add.len()
        invariant
            k <= add@.len(),
            out.deep_view() == old(out).deep_view() + add.deep_view().take(k as int),
        decreases add@.len() - k,
    {
        let ghost pre = out.deep_view();
        out.push(crate::stream::clone_string(&add[k]));
        proof {
            assert(out.deep_view() =~~= pre.push(add.deep_view()[k as int]));
            assert(old(out).deep_view() + add.deep_view().take(k + 1) =~~= pre.push(
                add.deep_view()[k as int],
            ));
        }
        k = k + 1;
    }
    proof {
        assert(add.deep_view().take(add.deep_view().len() as int) =~= add.deep_view());
        assert(out.deep_view() =~~= old(out).deep_view() + add.deep_view());
    }
}

/// Saturating `u64` addition, mathematically.
pub open spec fn spec_sat_add_u64(a: u64, b: nat) -> nat {
    if a + b > u64::MAX {
        u64::MAX as nat
    } else {
        (a + b) as nat
    }
}

/// Saturating `u64` addition.
pub fn sat_add_u64(a: u64, b: u64) -> (r: u64)
    ensures
        r as nat == spec_sat_add_u64(a, b as nat),
{
    match a.checked_add(b) {
        Some(x) => x,
        None => u64::MAX,
    }
}

/// Saturating `u32` addition.
pub fn sat_add_u32(a: u32, b: u32) -> (r: u32)
    ensures
        r == crate::stream::spec_sat_add_u32(a, b as nat),
{
    match a.checked_add(b) {
        Some(x) => x,
        None => u32::MAX,
    }
}

/// Union preserving first occurrences: the elements of `add` not yet in
/// `base`, appended in order.
pub open spec fn spec_union_first(base: Seq<Seq<char>>, add: Seq<Seq<char>>) -> Seq<Seq<char>>
    decreases add.len(),
{
    if add.len() == 0 {
        base
    } else {
        let pre = spec_union_first(base, add.drop_last());
        if pre.contains(add.last()) {
            pre
        } else {
            pre.push(add.last())
        }
    }
}

} // verus!
