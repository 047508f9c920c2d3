//! The stream driver's decisions: accumulate events and enforce the
//! circuit breaker.
//!
//! Pumping the child process happens outside the library; the driver loop
//! feeds each parsed event through `breaker_update`, and `run_stream` is the
//! same fold over a whole event sequence.

use vstd::prelude::*;

use crate::stream::{
    spec_acc_empty, spec_acc_fold, spec_acc_step, AccumSpec, EventSpec, StreamAccumulator,
    StreamEvent,
};

verus! {

/// One breaker step: an error tool result raises the consecutive-error
/// count, a successful tool result or a tool use resets it, anything else
/// leaves it.
pub open spec fn spec_breaker_step(count: u32, e: EventSpec) -> u32 {
    match e {
        EventSpec::ToolResult { is_error: true, .. } => if count == u32::MAX {
            u32::MAX
        } else {
            (count + 1) as u32
        },
        EventSpec::ToolResult { is_error: false, .. } => 0,
        EventSpec::ToolUse { .. } => 0,
        _ => count,
    }
}

/// Whether the breaker fires at this count: the threshold is positive and
/// reached.
pub open spec fn spec_breaker_fires(count: u32, threshold: u32) -> bool {
    threshold > 0 && count >= threshold
}

/// Advance the breaker over one event; the second component says whether the
/// child must now be killed.
pub fn breaker_update(count: u32, event: &StreamEvent, threshold: u32) -> (r: (u32, bool))
    ensures
        r.0 == spec_breaker_step(count, event@),
        r.1 == spec_breaker_fires(spec_breaker_step(count, event@), threshold),
{
    let next: u32 = match event {
        StreamEvent::ToolResult { is_error: true, .. } => {
            if count == 0xffff_ffff {
                u32::MAX
            } else {
                count + 1
            }
        },
        StreamEvent::ToolResult { is_error: false, .. } => 0,
        StreamEvent::ToolUse { .. } => 0,
        _ => count,
    };
    (next, threshold > 0 && next >= threshold)
}

/// The position at which the breaker first fires while scanning `events`
/// from `i` with the given entering count, if it ever does.
pub open spec fn spec_first_kill(events: Seq<EventSpec>, threshold: u32, i: int, count: u32) -> Option<int>
    decreases events.len() - i,
{
    if !(0 <= i < events.len()) {
        None
    } else {
        let next = spec_breaker_step(count, events[i]);
        if spec_breaker_fires(next, threshold) {
            Some(i)
        } else {
            spec_first_kill(events, threshold, i + 1, next)
        }
    }
}

/// How many events the driver processes: everything up to and including the
/// killing event, or all of them.
pub open spec fn spec_processed(events: Seq<EventSpec>, threshold: u32) -> int {
    match spec_first_kill(events, threshold, 0, 0) {
        Some(i) => i + 1,
        None => events.len() as int,
    }
}

/// Feed a whole event sequence through the accumulator under the circuit
/// breaker: the accumulator folds exactly the processed prefix, and the
/// child is killed exactly when the breaker ever fires.
pub fn run_stream(events: &Vec<StreamEvent>, threshold: u32) -> (r: (
    StreamAccumulator,
    usize,
    bool,
))
    ensures
        r.1 as int == spec_processed(events.deep_view(), threshold),
        r.0@ == spec_acc_fold(spec_acc_empty(), events.deep_view().take(r.1 as int)),
        r.2 == (spec_first_kill(events.deep_view(), threshold, 0, 0) is Some),
{
    let ghost ev = events.deep_view();
    let mut acc = StreamAccumulator::new();
    let mut count: u32 = 0;
    let mut k: usize = 0;
    proof {
        assert(ev.len() == events@.len());
    }
    while k < events.len()
        invariant
            k <= events@.len(),
            ev == events.deep_view(),
            ev.len() == events@.len(),
            spec_first_kill(ev, threshold, 0, 0) == spec_first_kill(
                ev,
                threshold,
                k as int,
                count,
            ),
            acc@ == spec_acc_fold(spec_acc_empty(), ev.take(k as int)),
        decreases events@.len() - k,
    {
        let ghost pre_acc = acc@;
        proof {
            assert(ev[k as int] == events@[k as int]@);
            assert(ev.take(k + 1).drop_last() =~= ev.take(k as int));
            assert(ev.take(k + 1).last() == ev[k as int]);
        }
        acc.process(&events[k]);
        let (next, fires) = breaker_update(count, &events[k], threshold);
        count = next;
        if fires {
            return (acc, k + 1, true);
        }
        k = k + 1;
    }
    proof {
        assert(ev.take(ev.len() as int) =~= ev);
    }
    (acc, k, false)
}

/// Once a run of `threshold` consecutive error tool results starts at `s`,
/// the breaker fires no later than the end of that run: nothing after it is
/// processed.
pub proof fn lemma_breaker_kills(
    events: Seq<EventSpec>,
    threshold: u32,
    s: int,
    i: int,
    count: u32,
)
    requires
        threshold > 0,
        0 <= s,
        s + threshold <= events.len(),
        0 <= i <= s + threshold - 1,
        i >= s ==> count as int >= i - s,
        forall|x: int|
            s <= x < s + threshold ==> (#[trigger] events[x]) matches EventSpec::ToolResult {
                is_error: true,
                ..
            },
    ensures
        spec_first_kill(events, threshold, i, count) matches Some(x) && x <= s + threshold - 1,
    decreases s + threshold - 1 - i,
{
    let next = spec_breaker_step(count, events[i]);
    if spec_breaker_fires(next, threshold) {
    } else {
        if i == s + threshold - 1 {
            assert(events[i] matches EventSpec::ToolResult { is_error: true, .. });
            assert(count as int >= threshold - 1);
            assert(next >= threshold);
            assert(false);
        } else {
            if i >= s {
                assert(events[i] matches EventSpec::ToolResult { is_error: true, .. });
                assert(next as int >= i + 1 - s);
            }
            lemma_breaker_kills(events, threshold, s, i + 1, next);
        }
    }
}

/// The circuit-breaker law: fed a sequence with `threshold` consecutive
/// error tool results starting at `s`, the driver processes nothing past
/// the end of that run — the child is killed.
pub proof fn lemma_circuit_breaker(events: Seq<EventSpec>, threshold: u32, s: int)
    requires
        threshold > 0,
        0 <= s,
        s + threshold <= events.len(),
        forall|x: int|
            s <= x < s + threshold ==> (#[trigger] events[x]) matches EventSpec::ToolResult {
                is_error: true,
                ..
            },
    ensures
        spec_first_kill(events, threshold, 0, 0) is Some,
        spec_processed(events, threshold) <= s + threshold,
{
    lemma_breaker_kills(events, threshold, s, 0, 0);
}

} // verus!
