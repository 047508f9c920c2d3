//! The step router: choosing the next step of a multi-step cycle.

use vstd::prelude::*;

use crate::config::StepConfig;
use crate::json::{spec_get, spec_parse_json, JsonSpec, Json, obj_get, parse_json};
use crate::text::{
    spec_contains_seq, spec_eq_ignore_case, spec_lines, spec_trimmed, chars_of, contains_seq,
    eq_ignore_case, eq_chars, string_from_chars, trimmed_of,
};

verus! {

/// The routing decision after a step completes.
pub enum RouteDecision {
    /// Proceed to this step.
    GoTo { step_name: String, reason: String },
    /// The cycle is complete.
    Done { reason: String },
}

/// The mathematical counterpart of [`RouteDecision`].
pub enum RouteSpec {
    GoTo { step_name: Seq<char>, reason: Seq<char> },
    Done { reason: Seq<char> },
}

impl View for RouteDecision {
    type V = RouteSpec;

    open spec fn view(&self) -> RouteSpec {
        match self {
            RouteDecision::GoTo { step_name, reason } => RouteSpec::GoTo {
                step_name: step_name@,
                reason: reason@,
            },
            RouteDecision::Done { reason } => RouteSpec::Done { reason: reason@ },
        }
    }
}

/// Visit counts per step within one cycle execution.
pub struct VisitTracker {
    counts: Vec<(String, u32)>,
}

impl View for VisitTracker {
    type V = Seq<(Seq<char>, u32)>;

    closed spec fn view(&self) -> Seq<(Seq<char>, u32)> {
        crate::text::view_pairs_u32(self.counts@)
    }
}

/// The count recorded for a step, zero when never visited.
pub open spec fn spec_visit_count(pairs: Seq<(Seq<char>, u32)>, name: Seq<char>) -> u32
    decreases pairs.len(),
{
    if pairs.len() == 0 {
        0
    } else if pairs.first().0 == name {
        pairs.first().1
    } else {
        spec_visit_count(pairs.drop_first(), name)
    }
}

impl VisitTracker {
    /// A tracker with no visits.
    pub fn new() -> (r: VisitTracker)
        ensures
            r@ == Seq::<(Seq<char>, u32)>::empty(),
    {
        let r = VisitTracker { counts: Vec::new() };
        proof {
            assert(r@ =~= Seq::<(Seq<char>, u32)>::empty());
        }
        r
    }

    /// Record a visit; the new count for the step comes back.
    pub fn record(&mut self, step_name: &str) -> (r: u32)
        ensures
            r == spec_visit_count(final(self)@, step_name@),
            spec_visit_count(final(self)@, step_name@) as int == (if spec_visit_count(
                old(self)@,
                step_name@,
            ) == u32::MAX {
                u32::MAX as int
            } else {
                spec_visit_count(old(self)@, step_name@) + 1
            }),
            forall|n: Seq<char>|
                n != step_name@ ==> spec_visit_count(final(self)@, n) == spec_visit_count(
                    old(self)@,
                    n,
                ),
    {
        crate::progress::bump_cycle_count(&mut self.counts, step_name);
        proof {
            lemma_bump_visit(crate::text::view_pairs_u32(old(self).counts@), step_name@);
            assert forall|n: Seq<char>| n != step_name@ implies spec_visit_count(self@, n)
                == spec_visit_count(old(self)@, n) by {
                lemma_bump_visit_other(
                    crate::text::view_pairs_u32(old(self).counts@),
                    step_name@,
                    n,
                );
            }
        }
        self.count(step_name)
    }

    /// The current visit count for a step.
    pub fn count(&self, step_name: &str) -> (r: u32)
        ensures
            r == spec_visit_count(self@, step_name@),
    {
        let target = chars_of(step_name);
        let mut k: usize = 0;
        proof {
            assert(self@.skip(0) =~= self@);
        }
        while k < self.counts.len()
            invariant
                k <= self.counts@.len(),
                self@.len() == self.counts@.len(),
                target@ == step_name@,
                spec_visit_count(self@, step_name@) == spec_visit_count(
                    self@.skip(k as int),
                    step_name@,
                ),
            decreases self.counts@.len() - k,
        {
            proof {
                assert(self@.skip(k as int).first() == self@[k as int]);
                assert(self@.skip(k as int).drop_first() =~= self@.skip(k + 1));
            }
            let cn = chars_of(self.counts[k].0.as_str());
            if eq_chars(&cn, &target) {
                return self.counts[k].1;
            }
            k = k + 1;
        }
        proof {
            assert(self@.skip(self@.len() as int) =~= Seq::<(Seq<char>, u32)>::empty());
        }
        0
    }

    /// Would visiting the step again exceed its cap?
    pub fn would_exceed(&self, step_name: &str, max_visits: u32) -> (r: bool)
        ensures
            r == (spec_visit_count(self@, step_name@) >= max_visits),
    {
        self.count(step_name) >= max_visits
    }
}

/// Bumping raises exactly the bumped step's count by one, saturating.
proof fn lemma_bump_visit(pairs: Seq<(Seq<char>, u32)>, name: Seq<char>)
    ensures
        spec_visit_count(crate::progress::spec_bump_count(pairs, name), name) as int == (
        if spec_visit_count(pairs, name) == u32::MAX {
            u32::MAX as int
        } else {
            spec_visit_count(pairs, name) + 1
        }),
    decreases pairs.len(),
{
    let bumped = crate::progress::spec_bump_count(pairs, name);
    if pairs.len() == 0 {
        assert(bumped == seq![(name, 1u32)]);
    } else if pairs.first().0 == name {
        assert(bumped.first() == (
            name,
            if pairs.first().1 == u32::MAX {
                u32::MAX
            } else {
                (pairs.first().1 + 1) as u32
            },
        ));
    } else {
        lemma_bump_visit(pairs.drop_first(), name);
        assert(bumped.first() == pairs.first());
        assert(bumped.drop_first() =~= crate::progress::spec_bump_count(
            pairs.drop_first(),
            name,
        ));
    }
}

/// Bumping leaves every other step's count alone.
proof fn lemma_bump_visit_other(pairs: Seq<(Seq<char>, u32)>, name: Seq<char>, other: Seq<char>)
    requires
        other != name,
    ensures
        spec_visit_count(crate::progress::spec_bump_count(pairs, name), other)
            == spec_visit_count(pairs, other),
    decreases pairs.len(),
{
    let bumped = crate::progress::spec_bump_count(pairs, name);
    if pairs.len() == 0 {
        assert(bumped == seq![(name, 1u32)]);
        assert(bumped.first().0 == name);
        assert(bumped.drop_first() =~= Seq::<(Seq<char>, u32)>::empty());
        assert(spec_visit_count(bumped, other) == spec_visit_count(bumped.drop_first(), other));
    } else if pairs.first().0 == name {
        assert(bumped.first().0 == name);
        assert(bumped.drop_first() =~= pairs.drop_first());
        assert(spec_visit_count(bumped, other) == spec_visit_count(pairs.drop_first(), other));
        assert(spec_visit_count(pairs, other) == spec_visit_count(pairs.drop_first(), other));
    } else {
        lemma_bump_visit_other(pairs.drop_first(), name, other);
        assert(bumped.first() == pairs.first());
        assert(bumped.drop_first() =~= crate::progress::spec_bump_count(
            pairs.drop_first(),
            name,
        ));
        if pairs.first().0 == other {
            assert(spec_visit_count(bumped, other) == bumped.first().1);
            assert(spec_visit_count(pairs, other) == pairs.first().1);
        } else {
            assert(spec_visit_count(bumped, other) == spec_visit_count(
                bumped.drop_first(),
                other,
            ));
            assert(spec_visit_count(pairs, other) == spec_visit_count(
                pairs.drop_first(),
                other,
            ));
        }
    }
}

/// Sequential routing: the next index, or nothing past the last step.
pub fn route_sequential(current_step_index: usize, total_steps: usize) -> (r: Option<usize>)
    ensures
        current_step_index + 1 < total_steps ==> r == Some((current_step_index + 1) as usize),
        current_step_index + 1 >= total_steps ==> r is None,
{
    if total_steps > 0 && current_step_index < total_steps - 1 {
        Some(current_step_index + 1)
    } else {
        None
    }
}

/// The prompt put to the agent when it must choose the next step.
pub open spec fn spec_router_prompt(
    completed: Seq<char>,
    result_text: Seq<char>,
    steps: Seq<Seq<char>>,
) -> Seq<char> {
    "You are a step router for an automated coding pipeline.\n\nThe step \""@ + completed
        + "\" just completed. Here is its output:\n\n---\n"@ + result_text
        + "\n---\n\n## Available Steps\n"@ + spec_step_bullets(steps, 0)
        + "\n\n## Instructions\nBased on the step output, decide which step should execute next.\n- If the work is complete and no more steps are needed, respond with \"DONE\".\n- Otherwise, choose the most appropriate next step from the list above.\n\nRespond with ONLY a JSON object on a single line, no other text:\n{\"next\": \"<step_name or DONE>\", \"reason\": \"<one sentence explanation>\"}"@
}

/// The bulleted step list, joined by newlines.
pub open spec fn spec_step_bullets(steps: Seq<Seq<char>>, k: int) -> Seq<char>
    decreases steps.len() - k,
{
    if !(0 <= k < steps.len()) {
        Seq::empty()
    } else {
        let head = "- "@ + steps[k];
        if k == steps.len() - 1 {
            head
        } else {
            head + seq!['\n'] + spec_step_bullets(steps, k + 1)
        }
    }
}

/// Build the router prompt.
pub fn build_router_prompt(
    completed_step_name: &str,
    result_text: &str,
    available_steps: &Vec<String>,
) -> (r: String)
    ensures
        r@ == spec_router_prompt(
            completed_step_name@,
            result_text@,
            available_steps.deep_view(),
        ),
{
    let ghost sv = available_steps.deep_view();
    let mut out: Vec<char> = Vec::new();
    crate::text::push_str(
        &mut out,
        "You are a step router for an automated coding pipeline.\n\nThe step \"",
    );
    crate::text::push_str(&mut out, completed_step_name);
    crate::text::push_str(&mut out, "\" just completed. Here is its output:\n\n---\n");
    crate::text::push_str(&mut out, result_text);
    crate::text::push_str(&mut out, "\n---\n\n## Available Steps\n");
    let ghost before = out@;
    let mut k: usize = 0;
    while k < available_steps.len()
        invariant
            k <= available_steps@.len(),
            sv == available_steps.deep_view(),
            sv.len() == available_steps@.len(),
            before + spec_step_bullets(sv, 0) == out@ + (if k < sv.len() {
                spec_step_bullets(sv, k as int)
            } else {
                Seq::<char>::empty()
            }),
        decreases available_steps@.len() - k,
    {
        let ghost pre = out@;
        crate::text::push_str(&mut out, "- ");
        crate::text::push_string(&mut out, &available_steps[k]);
        if k + 1 < available_steps.len() {
            out.push('\n');
            proof {
                assert(out@ + spec_step_bullets(sv, k + 1) =~= pre + spec_step_bullets(
                    sv,
                    k as int,
                ));
            }
        } else {
            proof {
                assert(out@ =~= pre + spec_step_bullets(sv, k as int));
            }
        }
        k = k + 1;
    }
    proof {
        if sv.len() == 0 {
            assert(spec_step_bullets(sv, 0) =~= Seq::<char>::empty());
            assert(out@ =~= before + spec_step_bullets(sv, 0));
        }
    }
    crate::text::push_str(
        &mut out,
        "\n\n## Instructions\nBased on the step output, decide which step should execute next.\n- If the work is complete and no more steps are needed, respond with \"DONE\".\n- Otherwise, choose the most appropriate next step from the list above.\n\nRespond with ONLY a JSON object on a single line, no other text:\n{\"next\": \"<step_name or DONE>\", \"reason\": \"<one sentence explanation>\"}",
    );
    proof {
        assert(out@ =~= spec_router_prompt(completed_step_name@, result_text@, sv));
    }
    string_from_chars(&out)
}

/// The decision one response line carries, if it is a JSON object with
/// string `next` and `reason` naming an available step or the finish word.
pub open spec fn spec_line_decision(line: Seq<char>, avail: Seq<Seq<char>>) -> Option<RouteSpec> {
    let trimmed = spec_trimmed(line);
    if trimmed.len() >= 1 && trimmed[0] == '{' && trimmed.last() == '}' {
        match spec_parse_json(trimmed) {
            Some(v) => match (spec_get(v, "next"@), spec_get(v, "reason"@)) {
                (Some(JsonSpec::Str(next)), Some(JsonSpec::Str(reason))) => if spec_eq_ignore_case(
                    next,
                    "done"@,
                ) {
                    Some(RouteSpec::Done { reason })
                } else if avail.contains(next) {
                    Some(RouteSpec::GoTo { step_name: next, reason })
                } else {
                    None
                },
                _ => None,
            },
            None => None,
        }
    } else {
        None
    }
}

/// The first line carrying a decision, scanned in order.
pub open spec fn spec_first_decision(
    lines: Seq<Seq<char>>,
    avail: Seq<Seq<char>>,
    k: int,
) -> Option<RouteSpec>
    decreases lines.len() - k,
{
    if !(0 <= k < lines.len()) {
        None
    } else {
        match spec_line_decision(lines[k], avail) {
            Some(d) => Some(d),
            None => spec_first_decision(lines, avail, k + 1),
        }
    }
}

/// The first available step named somewhere in the response.
pub open spec fn spec_first_named(resp: Seq<char>, avail: Seq<Seq<char>>, k: int) -> Option<
    Seq<char>,
>
    decreases avail.len() - k,
{
    if !(0 <= k < avail.len()) {
        None
    } else if spec_contains_seq(resp, avail[k]) {
        Some(avail[k])
    } else {
        spec_first_named(resp, avail, k + 1)
    }
}

/// What the router reads out of a response: the first JSON line's decision;
/// otherwise the finish word anywhere; otherwise the first step named in
/// the text; otherwise nothing.
pub open spec fn spec_route_response(resp: Seq<char>, avail: Seq<Seq<char>>) -> Option<
    RouteSpec,
> {
    match spec_first_decision(spec_lines(resp), avail, 0) {
        Some(d) => Some(d),
        None => if spec_contains_seq(resp, "DONE"@) {
            Some(
                RouteSpec::Done {
                    reason: "Extracted from response text (JSON parse failed)"@,
                },
            )
        } else {
            match spec_first_named(resp, avail, 0) {
                Some(n) => Some(
                    RouteSpec::GoTo {
                        step_name: n,
                        reason: "Extracted from response text (JSON parse failed)"@,
                    },
                ),
                None => None,
            }
        },
    }
}

/// Parse the router's response into a decision.
#[verifier::rlimit(100)]
#[verifier::spinoff_prover]
pub fn parse_router_response(response: &str, available_steps: &Vec<String>) -> (r: Option<
    RouteDecision,
>)
    ensures
        match r {
            Some(d) => spec_route_response(response@, available_steps.deep_view()) == Some(d@),
            None => spec_route_response(response@, available_steps.deep_view()) is None,
        },
{
    let ghost avail = available_steps.deep_view();
    let chars = chars_of(response);
    let lines = crate::text::split_lines(&chars);
    let done_lit = chars_of("done");
    let mut k: usize = 0;
    proof {
        assert(lines.deep_view() == spec_lines(response@));
    }
    while k < lines.len()
        invariant
            k <= lines@.len(),
            avail == available_steps.deep_view(),
            lines.deep_view() == spec_lines(response@),
            lines.deep_view().len() == lines@.len(),
            done_lit@ == "done"@,
            spec_first_decision(lines.deep_view(), avail, 0) == spec_first_decision(
                lines.deep_view(),
                avail,
                k as int,
            ),
        decreases lines@.len() - k,
    {
        proof {
            assert(lines.deep_view()[k as int] == lines@[k as int]@);
        }
        let trimmed = trimmed_of(&lines[k]);
        let is_obj = trimmed.len() >= 1 && trimmed[0] == '{' && trimmed[trimmed.len() - 1] == '}';
        let mut line_result: Option<RouteDecision> = None;
        let mut decided = false;
        if is_obj {
            match parse_json(&trimmed) {
                Some(v) => {
                    let fields = match &v {
                        Json::Obj(f) => Some(f),
                        _ => None,
                    };
                    match fields {
                        Some(f) => {
                            let next = match obj_get(f, "next") {
                                Some(Json::Str(n)) => Some(n),
                                _ => None,
                            };
                            let reason = match obj_get(f, "reason") {
                                Some(Json::Str(x)) => Some(x),
                                _ => None,
                            };
                            match (next, reason) {
                                (Some(n), Some(x)) => {
                                    let reason_s = string_from_chars(
                                        &crate::stream::copy_chars_pub(x),
                                    );
                                    if eq_ignore_case(n, &done_lit) {
                                        line_result = Some(
                                            RouteDecision::Done { reason: reason_s },
                                        );
                                        decided = true;
                                    } else if contains_string_text(available_steps, n) {
                                        line_result = Some(
                                            RouteDecision::GoTo {
                                                step_name: string_from_chars(
                                                    &crate::stream::copy_chars_pub(n),
                                                ),
                                                reason: reason_s,
                                            },
                                        );
                                        decided = true;
                                    }
                                },
                                _ => {},
                            }
                        },
                        None => {},
                    }
                },
                None => {},
            }
        }
        if decided {
            proof {
                assert(spec_line_decision(lines.deep_view()[k as int], avail) == Some(
                    line_result->Some_0@,
                ));
            }
            return line_result;
        }
        proof {
            assert(spec_line_decision(lines.deep_view()[k as int], avail) is None);
        }
        k = k + 1;
    }
    proof {
        assert(spec_first_decision(lines.deep_view(), avail, lines.deep_view().len() as int)
            is None);
    }
    // fallback: the finish word anywhere in the text
    if contains_seq(&chars, &chars_of("DONE")) {
        return Some(
            RouteDecision::Done {
                reason: "Extracted from response text (JSON parse failed)".to_owned(),
            },
        );
    }
    // fallback: the first step named anywhere in the text
    let mut k: usize = 0;
    while k < available_steps.len()
        invariant
            k <= available_steps@.len(),
            avail == available_steps.deep_view(),
            chars@ == response@,
            spec_first_named(response@, avail, 0) == spec_first_named(
                response@,
                avail,
                k as int,
            ),
        decreases available_steps@.len() - k,
    {
        let name = chars_of(available_steps[k].as_str());
        if contains_seq(&chars, &name) {
            return Some(
                RouteDecision::GoTo {
                    step_name: crate::stream::clone_string(&available_steps[k]),
                    reason: "Extracted from response text (JSON parse failed)".to_owned(),
                },
            );
        }
        k = k + 1;
    }
    None
}

/// Does the list hold a string with this text?
fn contains_string_text(v: &Vec<String>, text: &Vec<char>) -> (r: bool)
    ensures
        r == v.deep_view().contains(text@),
{
    let mut k: usize = 0;
    while k < v.len()
        invariant
            k <= v@.len(),
            forall|i: int| 0 <= i < k ==> v.deep_view()[i] != text@,
        decreases v@.len() - k,
    {
        let cn = chars_of(v[k].as_str());
        if eq_chars(&cn, text) {
            proof {
                assert(v.deep_view()[k as int] == text@);
            }
            return true;
        }
        k = k + 1;
    }
    proof {
        if v.deep_view().contains(text@) {
            let i = choose|i: int| 0 <= i < v.deep_view().len() && v.deep_view()[i] == text@;
            assert(v.deep_view()[i] != text@);
        }
    }
    false
}

/// The steps still eligible for a visit: those under their visit cap, in
/// declaration order.
pub open spec fn spec_eligible(
    steps: Seq<StepConfig>,
    visits: Seq<(Seq<char>, u32)>,
    k: int,
) -> Seq<Seq<char>>
    decreases steps.len() - k,
{
    if !(0 <= k < steps.len()) {
        Seq::empty()
    } else {
        (if spec_visit_count(visits, steps[k].name@) < steps[k].max_visits {
            seq![steps[k].name@]
        } else {
            Seq::empty()
        }) + spec_eligible(steps, visits, k + 1)
    }
}

/// List the steps whose visit count is still under their cap.
pub fn eligible_steps(all_steps: &Vec<StepConfig>, tracker: &VisitTracker) -> (r: Vec<String>)
    ensures
        r.deep_view() == spec_eligible(all_steps@, tracker@, 0),
{
    let mut out: Vec<String> = Vec::new();
    let mut k: usize = 0;
    while k < all_steps.len()
        invariant
            k <= all_steps@.len(),
            out.deep_view() + spec_eligible(all_steps@, tracker@, k as int) == spec_eligible(
                all_steps@,
                tracker@,
                0,
            ),
        decreases all_steps@.len() - k,
    {
        let ghost pre = out.deep_view();
        if !tracker.would_exceed(all_steps[k].name.as_str(), all_steps[k].max_visits) {
            out.push(crate::stream::clone_string(&all_steps[k].name));
            proof {
                assert(out.deep_view() =~~= pre.push(all_steps@[k as int].name@));
                assert(pre + (seq![all_steps@[k as int].name@] + spec_eligible(
                    all_steps@,
                    tracker@,
                    k + 1,
                )) =~~= out.deep_view() + spec_eligible(all_steps@, tracker@, k + 1));
            }
        } else {
            proof {
                assert(pre + (Seq::<Seq<char>>::empty() + spec_eligible(
                    all_steps@,
                    tracker@,
                    k + 1,
                )) =~~= pre + spec_eligible(all_steps@, tracker@, k + 1));
            }
        }
        k = k + 1;
    }
    proof {
        assert(spec_eligible(all_steps@, tracker@, all_steps@.len() as int) =~~= Seq::<
            Seq<char>,
        >::empty());
        assert(out.deep_view() =~~= out.deep_view() + spec_eligible(
            all_steps@,
            tracker@,
            all_steps@.len() as int,
        ));
    }
    out
}

/// The decision after a sequentially-routed step: the next step by
/// position, or done past the last one.
pub fn sequential_decision(
    completed_step_index: usize,
    all_steps: &Vec<StepConfig>,
) -> (r: RouteDecision)
    ensures
        completed_step_index + 1 < all_steps@.len() ==> r@ == (RouteSpec::GoTo {
            step_name: all_steps@[completed_step_index + 1].name@,
            reason: "Sequential progression"@,
        }),
        completed_step_index + 1 >= all_steps@.len() ==> r@ == (RouteSpec::Done {
            reason: "Sequential progression"@,
        }),
{
    match route_sequential(completed_step_index, all_steps.len()) {
        Some(next) => RouteDecision::GoTo {
            step_name: crate::stream::clone_string(&all_steps[next].name),
            reason: "Sequential progression".to_owned(),
        },
        None => RouteDecision::Done { reason: "Sequential progression".to_owned() },
    }
}

} // verus!
