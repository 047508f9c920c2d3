//! The rules engine: which dependent cycles follow a completed cycle.

use vstd::prelude::*;

use crate::config::{CycleConfig, FlowConfig};
use crate::outcome::CycleOutcome;
use crate::text::{chars_of, eq_chars};

verus! {

/// The name appears in the cycle's `after` list.
pub open spec fn spec_after_contains(c: CycleConfig, name: Seq<char>) -> bool {
    exists|k: int| 0 <= k < c.after@.len() && (#[trigger] c.after@[k])@ == name
}

/// How many entries from the end of the log the most recent entry for
/// `name` sits: zero for the last entry, none when the cycle never ran.
pub open spec fn spec_last_distance(log: Seq<CycleOutcome>, name: Seq<char>) -> Option<nat>
    decreases log.len(),
{
    if log.len() == 0 {
        None
    } else if log.last().cycle@ == name {
        Some(0)
    } else {
        match spec_last_distance(log.drop_last(), name) {
            Some(d) => Some(d + 1),
            None => None,
        }
    }
}

/// The frequency gate: no constraint, a never-run cycle, or enough log
/// entries since the last run.
pub open spec fn spec_gate_passes(c: CycleConfig, log: Seq<CycleOutcome>) -> bool {
    match c.min_interval {
        None => true,
        Some(mi) => match spec_last_distance(log, c.name@) {
            None => true,
            Some(d) => d >= mi,
        },
    }
}

/// Whether a cycle fires after `completed`: it names the completed cycle in
/// `after` and its frequency gate passes.
pub open spec fn spec_fires(c: CycleConfig, completed: Seq<char>, log: Seq<CycleOutcome>) -> bool {
    spec_after_contains(c, completed) && spec_gate_passes(c, log)
}

/// The names of the cycles from position `k` on that fire, in order.
pub open spec fn spec_triggered(
    cycles: Seq<CycleConfig>,
    completed: Seq<char>,
    log: Seq<CycleOutcome>,
    k: int,
) -> Seq<Seq<char>>
    decreases cycles.len() - k,
{
    if !(0 <= k < cycles.len()) {
        Seq::empty()
    } else {
        (if spec_fires(cycles[k], completed, log) {
            seq![cycles[k].name@]
        } else {
            Seq::empty()
        }) + spec_triggered(cycles, completed, log, k + 1)
    }
}

/// Does the cycle's `after` list name `completed`?
fn after_contains(c: &CycleConfig, completed: &Vec<char>) -> (r: bool)
    ensures
        r == spec_after_contains(*c, completed@),
{
    let mut k: usize = 0;
    while k < c.after.len()
        invariant
            k <= c.after@.len(),
            forall|j: int| 0 <= j < k ==> (#[trigger] c.after@[j])@ != completed@,
        decreases c.after@.len() - k,
    {
        let dep = chars_of(c.after[k].as_str());
        if eq_chars(&dep, completed) {
            return true;
        }
        k = k + 1;
    }
    false
}

/// The distance from the end of the log to the last entry for `name`.
fn last_distance(log: &Vec<CycleOutcome>, name: &Vec<char>) -> (r: Option<u64>)
    requires
        log@.len() <= u64::MAX,
    ensures
        match r {
            Some(d) => spec_last_distance(log@, name@) == Some(d as nat),
            None => spec_last_distance(log@, name@) is None,
        },
{
    let mut k: usize = log.len();
    let mut d: u64 = 0;
    proof {
        assert(log@.take(log@.len() as int) =~= log@);
    }
    while k > 0
        invariant
            k <= log@.len(),
            d == log@.len() - k,
            spec_last_distance(log@, name@) == match spec_last_distance(
                log@.take(k as int),
                name@,
            ) {
                Some(x) => Some((x + d) as nat),
                None => None,
            },
        decreases k,
    {
        proof {
            assert(log@.take(k as int).last() == log@[k - 1]);
            assert(log@.take(k as int).drop_last() =~= log@.take(k - 1));
        }
        let cn = chars_of(log[k - 1].cycle.as_str());
        if eq_chars(&cn, name) {
            return Some(d);
        }
        k = k - 1;
        d = d + 1;
    }
    proof {
        assert(log@.take(0) =~= Seq::<CycleOutcome>::empty());
    }
    None
}

/// Does the frequency gate let the cycle fire now?
fn gate_passes(c: &CycleConfig, log: &Vec<CycleOutcome>) -> (r: bool)
    requires
        log@.len() <= u64::MAX,
    ensures
        r == spec_gate_passes(*c, log@),
{
    match c.min_interval {
        None => true,
        Some(mi) => {
            let name = chars_of(c.name.as_str());
            match last_distance(log, &name) {
                None => true,
                Some(d) => d >= mi as u64,
            }
        },
    }
}

/// The dependent cycles due after `completed_cycle`, in configuration
/// order: each names it in `after` and its frequency gate lets it run, the
/// gate counting log entries back from the end.
pub fn find_triggered_cycles(
    config: &FlowConfig,
    completed_cycle: &str,
    log: &Vec<CycleOutcome>,
) -> (r: Vec<String>)
    requires
        log@.len() <= u64::MAX,
    ensures
        r.deep_view() == spec_triggered(config.cycles@, completed_cycle@, log@, 0),
{
    let completed = chars_of(completed_cycle);
    let mut out: Vec<String> = Vec::new();
    let ghost target = spec_triggered(config.cycles@, completed_cycle@, log@, 0);
    let mut k: usize = 0;
    while k < config.cycles.len()
        invariant
            k <= config.cycles@.len(),
            completed@ == completed_cycle@,
            log@.len() <= u64::MAX,
            target == spec_triggered(config.cycles@, completed_cycle@, log@, 0),
            target == out.deep_view() + spec_triggered(
                config.cycles@,
                completed_cycle@,
                log@,
                k as int,
            ),
        decreases config.cycles@.len() - k,
    {
        let ghost pre = out.deep_view();
        if after_contains(&config.cycles[k], &completed) && gate_passes(&config.cycles[k], log) {
            out.push(crate::stream::clone_string(&config.cycles[k].name));
            proof {
                assert(out.deep_view() =~~= pre.push(config.cycles@[k as int].name@));
                assert(pre + (seq![config.cycles@[k as int].name@] + spec_triggered(
                    config.cycles@,
                    completed_cycle@,
                    log@,
                    k + 1,
                )) =~~= out.deep_view() + spec_triggered(
                    config.cycles@,
                    completed_cycle@,
                    log@,
                    k + 1,
                ));
            }
        } else {
            proof {
                assert(pre + (Seq::<Seq<char>>::empty() + spec_triggered(
                    config.cycles@,
                    completed_cycle@,
                    log@,
                    k + 1,
                )) =~~= pre + spec_triggered(config.cycles@, completed_cycle@, log@, k + 1));
            }
        }
        k = k + 1;
    }
    proof {
        assert(spec_triggered(config.cycles@, completed_cycle@, log@, config.cycles@.len() as int)
            =~~= Seq::<Seq<char>>::empty());
        assert(out.deep_view() =~~= out.deep_view() + spec_triggered(
            config.cycles@,
            completed_cycle@,
            log@,
            config.cycles@.len() as int,
        ));
    }
    out
}

/// A name is among the triggered ones exactly when some cycle of that name
/// fires.
pub proof fn lemma_triggered_membership(
    cycles: Seq<CycleConfig>,
    completed: Seq<char>,
    log: Seq<CycleOutcome>,
    k: int,
    n: Seq<char>,
)
    requires
        0 <= k <= cycles.len(),
    ensures
        spec_triggered(cycles, completed, log, k).contains(n) <==> exists|i: int|
            k <= i < cycles.len() && (#[trigger] cycles[i]).name@ == n && spec_fires(
                cycles[i],
                completed,
                log,
            ),
    decreases cycles.len() - k,
{
    if k < cycles.len() {
        lemma_triggered_membership(cycles, completed, log, k + 1, n);
        let head: Seq<Seq<char>> = if spec_fires(cycles[k], completed, log) {
            seq![cycles[k].name@]
        } else {
            Seq::empty()
        };
        let tail = spec_triggered(cycles, completed, log, k + 1);
        let whole = spec_triggered(cycles, completed, log, k);
        assert(whole == head + tail);
        if whole.contains(n) {
            let i = choose|i: int| 0 <= i < whole.len() && whole[i] == n;
            if i < head.len() {
                assert(head[i] == n);
                assert(spec_fires(cycles[k], completed, log) && cycles[k].name@ == n);
            } else {
                assert(tail[i - head.len()] == n);
                assert(tail.contains(n));
            }
        }
        if exists|i: int|
            k <= i < cycles.len() && (#[trigger] cycles[i]).name@ == n && spec_fires(
                cycles[i],
                completed,
                log,
            ) {
            let i = choose|i: int|
                k <= i < cycles.len() && (#[trigger] cycles[i]).name@ == n && spec_fires(
                    cycles[i],
                    completed,
                    log,
                );
            if i == k {
                assert(whole[0] == n);
                assert(whole.contains(n));
            } else {
                assert(tail.contains(n));
                let j = choose|j: int| 0 <= j < tail.len() && tail[j] == n;
                assert(whole[head.len() + j] == n);
                assert(whole.contains(n));
            }
        }
    }
}

/// For a dependent cycle `c` with `after = [a]`, appending an entry for `a`
/// to the log triggers `c` exactly when `c` has no frequency constraint or
/// the last entry for `c` in the extended log is at least `min_interval`
/// positions from its end.
pub proof fn lemma_dependent_trigger(
    cycles: Seq<CycleConfig>,
    i: int,
    a: Seq<char>,
    log: Seq<CycleOutcome>,
    entry: CycleOutcome,
)
    requires
        0 <= i < cycles.len(),
        forall|x: int, y: int|
            0 <= x < y < cycles.len() ==> (#[trigger] cycles[x]).name@ != (
            #[trigger] cycles[y]).name@,
        cycles[i].after.deep_view() == seq![a],
        entry.cycle@ == a,
    ensures
        spec_triggered(cycles, a, log.push(entry), 0).contains(cycles[i].name@) <==> (
        cycles[i].min_interval is None || match spec_last_distance(
            log.push(entry),
            cycles[i].name@,
        ) {
            None => true,
            Some(d) => d >= cycles[i].min_interval->0,
        }),
{
    let newlog = log.push(entry);
    lemma_triggered_membership(cycles, a, newlog, 0, cycles[i].name@);
    assert(cycles[i].after.deep_view()[0] == a);
    assert(cycles[i].after@.len() == cycles[i].after.deep_view().len());
    assert((cycles[i].after@[0])@ == cycles[i].after.deep_view()[0]);
    assert(spec_after_contains(cycles[i], a));
    if spec_fires(cycles[i], a, newlog) {
        assert(spec_triggered(cycles, a, newlog, 0).contains(cycles[i].name@));
    }
    if spec_triggered(cycles, a, newlog, 0).contains(cycles[i].name@) {
        let j = choose|j: int|
            0 <= j < cycles.len() && (#[trigger] cycles[j]).name@ == cycles[i].name@ && spec_fires(
                cycles[j],
                a,
                newlog,
            );
        if j != i {
            if j < i {
                assert(cycles[j].name@ != cycles[i].name@);
            } else {
                assert(cycles[i].name@ != cycles[j].name@);
            }
        }
        assert(spec_gate_passes(cycles[i], newlog));
    }
}

} // verus!
