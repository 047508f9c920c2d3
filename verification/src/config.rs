//! The configuration shape the engine consumes, and its validation.
//!
//! Reading the configuration file and turning its text into these structures
//! happens outside the library; everything here operates on the parsed shape.

use vstd::prelude::*;

use crate::text::{spec_is_blank, chars_of, eq_chars, is_ws};

verus! {

/// How much history context a cycle's prompt receives.
pub enum ContextMode {
    /// A structured block per prior entry.
    Full,
    /// One summary bullet per prior entry.
    Summaries,
    /// No history context.
    NoContext,
}

/// How the next step of a multi-step cycle is chosen.
pub enum StepRouter {
    /// Proceed to the next step in declaration order.
    Sequential,
    /// Ask the agent to choose the next step.
    Llm,
}

/// Global settings shared by all cycles.
pub struct GlobalConfig {
    /// Permissions granted to every cycle.
    pub permissions: Vec<String>,
    /// Permission denials tolerated in one cycle before the run stops.
    pub max_permission_denials: u32,
    /// Consecutive error tool results before the subprocess is killed.
    pub circuit_breaker_repeated: u32,
    /// Consecutive failed cycles before the run stops.
    pub max_consecutive_failures: u32,
    /// Print a run summary every this many iterations; zero disables it.
    pub summary_interval: u32,
    /// Custom template variables, later entries overriding earlier ones.
    pub vars: Vec<(String, String)>,
}

/// One step of a multi-step cycle.
pub struct StepConfig {
    /// Unique name within the cycle.
    pub name: String,
    /// Steps sharing a session tag continue the same agent conversation.
    pub session: Option<String>,
    /// The step's prompt.
    pub prompt: String,
    /// Step-level permission additions.
    pub permissions: Vec<String>,
    /// How the next step is chosen once this one completes.
    pub router: StepRouter,
    /// How many times this step may run in one cycle execution.
    pub max_visits: u32,
    /// Turn cap for this step, overriding the cycle's.
    pub max_turns: Option<u32>,
    /// Budget cap for this step in micro-dollars, overriding the cycle's.
    pub max_cost_micros: Option<u64>,
}

/// One cycle definition.
pub struct CycleConfig {
    /// Unique name.
    pub name: String,
    /// Human-readable description.
    pub description: String,
    /// The prompt of a single-step cycle; empty for multi-step cycles.
    pub prompt: String,
    /// Cycle-level permission additions.
    pub permissions: Vec<String>,
    /// Cycles whose completion triggers this one.
    pub after: Vec<String>,
    /// How much history context the prompt receives.
    pub context: ContextMode,
    /// Log entries that must separate two auto-triggered runs.
    pub min_interval: Option<u32>,
    /// Turn cap, used by steps without their own.
    pub max_turns: Option<u32>,
    /// Budget cap in micro-dollars, used by steps without their own.
    pub max_cost_micros: Option<u64>,
    /// The steps of a multi-step cycle; empty for single-step cycles.
    pub steps: Vec<StepConfig>,
}

/// Settings for the agent-driven cycle selector.
pub struct SelectorConfig {
    /// Selection guidance that replaces the built-in criteria.
    pub prompt: String,
}

/// The whole configuration.
pub struct FlowConfig {
    pub global: GlobalConfig,
    pub selector: Option<SelectorConfig>,
    pub cycles: Vec<CycleConfig>,
}

/// Default ceiling on permission denials per cycle.
pub fn default_max_permission_denials() -> (r: u32)
    ensures
        r == 10,
{
    10
}

/// Default circuit-breaker threshold for consecutive tool errors.
pub fn default_circuit_breaker_repeated() -> (r: u32)
    ensures
        r == 5,
{
    5
}

/// Default ceiling on consecutive failed cycles.
pub fn default_max_consecutive_failures() -> (r: u32)
    ensures
        r == 3,
{
    3
}

/// Default interval for the periodic run summary.
pub fn default_summary_interval() -> (r: u32)
    ensures
        r == 5,
{
    5
}

/// Default step router.
pub fn default_step_router() -> (r: StepRouter)
    ensures
        r is Sequential,
{
    StepRouter::Sequential
}

/// Default per-step visit cap.
pub fn default_max_visits() -> (r: u32)
    ensures
        r == 3,
{
    3
}

/// Default context mode.
pub fn default_context() -> (r: ContextMode)
    ensures
        r is NoContext,
{
    ContextMode::NoContext
}

impl CycleConfig {
    /// A cycle with explicit steps is multi-step.
    pub fn is_multi_step(&self) -> (r: bool)
        ensures
            r == (self.steps@.len() > 0),
    {
        self.steps.len() > 0
    }
}

// --- permission syntax ---

/// ASCII alphanumeric.
pub open spec fn spec_is_alnum(c: char) -> bool {
    let u = c as u32;
    (0x30 <= u && u <= 0x39) || (0x41 <= u && u <= 0x5a) || (0x61 <= u && u <= 0x7a)
}

/// The first position at or after `i` that is not ASCII alphanumeric.
pub open spec fn spec_scan_alnum(s: Seq<char>, i: int) -> int
    decreases s.len() - i,
{
    if 0 <= i < s.len() && spec_is_alnum(s[i]) {
        spec_scan_alnum(s, i + 1)
    } else {
        i
    }
}

/// A well-formed permission token: a tool name of ASCII alphanumerics
/// beginning with an ASCII capital, either bare or followed by a
/// parenthesized non-empty specifier that ends the token.
pub open spec fn spec_perm_valid(p: Seq<char>) -> bool {
    let e = spec_scan_alnum(p, 0);
    &&& p.len() > 0
    &&& e > 0
    &&& 0x41 <= p[0] as u32 && p[0] as u32 <= 0x5a
    &&& (e == p.len() || (p[e] == '(' && p.last() == ')' && p.len() >= e + 3))
}

fn is_alnum(c: char) -> (b: bool)
    ensures
        b == spec_is_alnum(c),
{
    let u = c as u32;
    (0x30 <= u && u <= 0x39) || (0x41 <= u && u <= 0x5a) || (0x61 <= u && u <= 0x7a)
}

/// Check one permission token against the `ToolName` or `ToolName(specifier)`
/// syntax; the error carries a diagnostic sentence.
pub fn validate_permission(perm: &str) -> (r: Result<(), String>)
    ensures
        r is Ok <==> spec_perm_valid(perm@),
{
    let p = chars_of(perm);
    if p.len() == 0 {
        return Err("Invalid permission '': permission string cannot be empty".to_owned());
    }
    let mut e: usize = 0;
    while e < p.len() && is_alnum(p[e])
        invariant
            e <= p@.len(),
            spec_scan_alnum(p@, 0) == spec_scan_alnum(p@, e as int),
        decreases p@.len() - e,
    {
        e = e + 1;
    }
    let u0 = p[0] as u32;
    if e == 0 || !(0x41 <= u0 && u0 <= 0x5a) {
        return Err(
            "Invalid permission: tool name must start with an uppercase letter".to_owned(),
        );
    }
    if e == p.len() {
        return Ok(());
    }
    if !(p[e] == '(' && p[p.len() - 1] == ')') {
        return Err(
            "Invalid permission: expected format 'ToolName' or 'ToolName(specifier)'".to_owned(),
        );
    }
    if p.len() - e < 3 {
        return Err(
            "Invalid permission: specifier inside parentheses cannot be empty".to_owned(),
        );
    }
    Ok(())
}

// --- whole-configuration validation ---

/// Numeric limits must be strictly positive when present.
pub open spec fn spec_limits_valid(max_turns: Option<u32>, max_cost_micros: Option<u64>) -> bool {
    &&& (max_turns is Some ==> max_turns->0 > 0)
    &&& (max_cost_micros is Some ==> max_cost_micros->0 > 0)
}

/// Every permission token in the list is well-formed.
pub open spec fn spec_perms_valid(perms: Seq<Seq<char>>) -> bool {
    forall|i: int| 0 <= i < perms.len() ==> spec_perm_valid(#[trigger] perms[i])
}

/// A step is well-formed on its own.
pub open spec fn spec_step_wf(s: StepConfig) -> bool {
    &&& !spec_is_blank(s.name@)
    &&& spec_perms_valid(s.permissions.deep_view())
    &&& spec_limits_valid(s.max_turns, s.max_cost_micros)
}

/// A cycle is well-formed on its own: a non-blank name, valid permissions
/// and limits, either a prompt or steps but not both, and well-formed steps
/// with unique names.
pub open spec fn spec_cycle_wf(c: CycleConfig) -> bool {
    &&& !spec_is_blank(c.name@)
    &&& spec_perms_valid(c.permissions.deep_view())
    &&& spec_limits_valid(c.max_turns, c.max_cost_micros)
    &&& (c.steps@.len() == 0 ==> c.prompt@.len() > 0)
    &&& (c.steps@.len() > 0 ==> c.prompt@.len() == 0)
    &&& (forall|i: int| 0 <= i < c.steps@.len() ==> spec_step_wf(#[trigger] c.steps@[i]))
    &&& (forall|i: int, j: int|
        0 <= i < j < c.steps@.len() ==> c.steps@[i].name@ != c.steps@[j].name@)
}

/// The name appears among the cycles.
pub open spec fn spec_has_cycle(cycles: Seq<CycleConfig>, name: Seq<char>) -> bool {
    exists|i: int| 0 <= i < cycles.len() && (#[trigger] cycles[i]).name@ == name
}

/// The whole configuration is well-formed: unique non-blank cycle names,
/// resolvable `after` references, valid permission syntax everywhere, valid
/// limits, and each cycle either single-step or multi-step.
pub open spec fn spec_config_valid(c: FlowConfig) -> bool {
    &&& (forall|i: int, j: int|
        0 <= i < j < c.cycles@.len() ==> (#[trigger] c.cycles@[i]).name@ != (
        #[trigger] c.cycles@[j]).name@)
    &&& (forall|i: int, k: int|
        0 <= i < c.cycles@.len() && 0 <= k < c.cycles@[i].after@.len() ==> spec_has_cycle(
            c.cycles@,
            (#[trigger] c.cycles@[i].after@[k])@,
        ))
    &&& spec_perms_valid(c.global.permissions.deep_view())
    &&& (forall|i: int| 0 <= i < c.cycles@.len() ==> spec_cycle_wf(#[trigger] c.cycles@[i]))
}

impl FlowConfig {
    /// Find the first cycle with this name.
    pub fn get_cycle(&self, name: &str) -> (r: Option<&CycleConfig>)
        ensures
            match r {
                Some(c) => exists|i: int|
                    0 <= i < self.cycles@.len() && (#[trigger] self.cycles@[i]).name@ == name@
                        && self.cycles@[i] == *c,
                None => !spec_has_cycle(self.cycles@, name@),
            },
    {
        let target = chars_of(name);
        let mut i: usize = 0;
        while i < self.cycles.len()
            invariant
                i <= self.cycles@.len(),
                forall|j: int| 0 <= j < i ==> (#[trigger] self.cycles@[j]).name@ != name@,
            decreases self.cycles@.len() - i,
        {
            let cn = chars_of(self.cycles[i].name.as_str());
            if eq_chars(&cn, &target) {
                return Some(&self.cycles[i]);
            }
            i = i + 1;
        }
        None
    }

    /// Check the whole configuration; `Ok` exactly when it is well-formed.
    pub fn validate(&self) -> (r: Result<(), String>)
        ensures
            r is Ok <==> spec_config_valid(*self),
    {
        let n = self.cycles.len();
        // unique names
        let mut i: usize = 0;
        while i < n
            invariant
                i <= n == self.cycles@.len(),
                forall|a: int, b: int|
                    0 <= a < b < i ==> (#[trigger] self.cycles@[a]).name@ != (
                    #[trigger] self.cycles@[b]).name@,
            decreases n - i,
        {
            let ci = chars_of(self.cycles[i].name.as_str());
            let mut j: usize = 0;
            while j < i
                invariant
                    j <= i < self.cycles@.len(),
                    ci@ == self.cycles@[i as int].name@,
                    forall|b: int| 0 <= b < j ==> (#[trigger] self.cycles@[b]).name@ != ci@,
                decreases i - j,
            {
                let cj = chars_of(self.cycles[j].name.as_str());
                if eq_chars(&cj, &ci) {
                    return Err("Duplicate cycle name".to_owned());
                }
                j = j + 1;
            }
            i = i + 1;
        }
        // after references resolve
        let mut i: usize = 0;
        while i < n
            invariant
                i <= n == self.cycles@.len(),
                forall|a: int, k: int|
                    0 <= a < i && 0 <= k < self.cycles@[a].after@.len() ==> spec_has_cycle(
                        self.cycles@,
                        (#[trigger] self.cycles@[a].after@[k])@,
                    ),
            decreases n - i,
        {
            let deps = self.cycles[i].after.len();
            let mut k: usize = 0;
            while k < deps
                invariant
                    i < self.cycles@.len(),
                    k <= deps == self.cycles@[i as int].after@.len(),
                    forall|x: int|
                        0 <= x < k ==> spec_has_cycle(
                            self.cycles@,
                            (#[trigger] self.cycles@[i as int].after@[x])@,
                        ),
                decreases deps - k,
            {
                if self.get_cycle(self.cycles[i].after[k].as_str()).is_none() {
                    return Err("Cycle references unknown cycle in 'after'".to_owned());
                }
                k = k + 1;
            }
            i = i + 1;
        }
        // global permissions
        if let Err(e) = validate_permission_list(&self.global.permissions) {
            return Err(e);
        }
        // per-cycle checks
        let mut i: usize = 0;
        while i < n
            invariant
                i <= n == self.cycles@.len(),
                forall|a: int| 0 <= a < i ==> spec_cycle_wf(#[trigger] self.cycles@[a]),
            decreases n - i,
        {
            if let Err(e) = validate_cycle(&self.cycles[i]) {
                return Err(e);
            }
            i = i + 1;
        }
        Ok(())
    }
}

/// Check every permission token in a list.
fn validate_permission_list(perms: &Vec<String>) -> (r: Result<(), String>)
    ensures
        r is Ok <==> spec_perms_valid(perms.deep_view()),
{
    let mut i: usize = 0;
    while i < perms.len()
        invariant
            i <= perms@.len(),
            forall|j: int| 0 <= j < i ==> spec_perm_valid(#[trigger] perms.deep_view()[j]),
        decreases perms@.len() - i,
    {
        if let Err(e) = validate_permission(perms[i].as_str()) {
            proof {
                assert(perms.deep_view()[i as int] == perms@[i as int]@);
            }
            return Err(e);
        }
        proof {
            assert(perms.deep_view()[i as int] == perms@[i as int]@);
        }
        i = i + 1;
    }
    Ok(())
}

/// Check one cycle's own well-formedness.
fn validate_cycle(c: &CycleConfig) -> (r: Result<(), String>)
    ensures
        r is Ok <==> spec_cycle_wf(*c),
{
    let name = chars_of(c.name.as_str());
    if is_blank_vec(&name) {
        return Err("Cycle name cannot be empty".to_owned());
    }
    if let Err(e) = validate_permission_list(&c.permissions) {
        return Err(e);
    }
    if matches!(c.max_turns, Some(0u32)) {
        return Err("max_turns must be greater than 0".to_owned());
    }
    if matches!(c.max_cost_micros, Some(0u64)) {
        return Err("max_cost_usd must be greater than 0".to_owned());
    }
    if c.steps.len() == 0 && c.prompt.as_str().is_empty() {
        return Err("Cycle must have a 'prompt' or steps".to_owned());
    }
    if c.steps.len() > 0 && !c.prompt.as_str().is_empty() {
        return Err("Cycle cannot have both a top-level 'prompt' and steps".to_owned());
    }
    let m = c.steps.len();
    let mut i: usize = 0;
    while i < m
        invariant
            i <= m == c.steps@.len(),
            forall|a: int| 0 <= a < i ==> spec_step_wf(#[trigger] c.steps@[a]),
            forall|a: int, b: int| 0 <= a < b < i ==> c.steps@[a].name@ != c.steps@[b].name@,
        decreases m - i,
    {
        let sname = chars_of(c.steps[i].name.as_str());
        if is_blank_vec(&sname) {
            return Err("Step name cannot be empty".to_owned());
        }
        if let Err(e) = validate_permission_list(&c.steps[i].permissions) {
            return Err(e);
        }
        if matches!(c.steps[i].max_turns, Some(0u32)) {
            return Err("max_turns must be greater than 0".to_owned());
        }
        if matches!(c.steps[i].max_cost_micros, Some(0u64)) {
            return Err("max_cost_usd must be greater than 0".to_owned());
        }
        let mut j: usize = 0;
        while j < i
            invariant
                j <= i < c.steps@.len(),
                sname@ == c.steps@[i as int].name@,
                forall|b: int| 0 <= b < j ==> (#[trigger] c.steps@[b]).name@ != sname@,
            decreases i - j,
        {
            let other = chars_of(c.steps[j].name.as_str());
            if eq_chars(&other, &sname) {
                return Err("Duplicate step name".to_owned());
            }
            j = j + 1;
        }
        i = i + 1;
    }
    Ok(())
}

/// Is the text all whitespace?
fn is_blank_vec(s: &Vec<char>) -> (r: bool)
    ensures
        r == spec_is_blank(s@),
{
    let mut i: usize = 0;
    while i < s.len()
        invariant
            i <= s@.len(),
            forall|j: int| 0 <= j < i ==> crate::text::spec_is_ws(#[trigger] s@[j]),
        decreases s@.len() - i,
    {
        if !is_ws(s[i]) {
            return false;
        }
        i = i + 1;
    }
    true
}

} // verus!
