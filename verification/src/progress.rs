//! The run-progress snapshot for external observers.

use vstd::prelude::*;

use crate::text::view_pairs_u32;

verus! {

/// Where the run stands.
pub enum RunStatus {
    Running,
    Completed,
    Failed,
    Stopped,
}

/// The single snapshot written for observers at every state transition.
pub struct RunProgress {
    /// When the run started, ISO-8601 UTC.
    pub started_at: String,
    /// The iteration now running, starting at one.
    pub current_iteration: u32,
    /// The configured iteration ceiling.
    pub max_iterations: u32,
    /// The cycle now running, empty before the first one.
    pub current_cycle: String,
    /// The run's status.
    pub current_status: RunStatus,
    /// Executions per cycle name within this run, in first-seen order.
    pub cycles_executed: Vec<(String, u32)>,
    /// Total seconds across completed cycles.
    pub total_duration_secs: u64,
    /// Total cost across completed cycles, in micro-dollars.
    pub total_cost_micros: u64,
    /// The most recent outcome text, once one exists.
    pub last_outcome: Option<String>,
}

impl RunProgress {
    /// A fresh snapshot for the start of a run.
    pub fn new(max_iterations: u32, started_at: String) -> (r: RunProgress)
        ensures
            r.started_at == started_at,
            r.current_iteration == 1,
            r.max_iterations == max_iterations,
            r.current_cycle@ == Seq::<char>::empty(),
            r.current_status is Running,
            view_pairs_u32(r.cycles_executed@) == Seq::<(Seq<char>, u32)>::empty(),
            r.total_duration_secs == 0,
            r.total_cost_micros == 0,
            r.last_outcome is None,
    {
        let r = RunProgress {
            started_at,
            current_iteration: 1,
            max_iterations,
            current_cycle: String::new(),
            current_status: RunStatus::Running,
            cycles_executed: Vec::new(),
            total_duration_secs: 0,
            total_cost_micros: 0,
            last_outcome: None,
        };
        proof {
            assert(view_pairs_u32(r.cycles_executed@) =~= Seq::<(Seq<char>, u32)>::empty());
        }
        r
    }
}

/// Bump the execution count of `name`, inserting it at the end when new.
pub open spec fn spec_bump_count(pairs: Seq<(Seq<char>, u32)>, name: Seq<char>) -> Seq<
    (Seq<char>, u32),
>
    decreases pairs.len(),
{
    if pairs.len() == 0 {
        seq![(name, 1u32)]
    } else if pairs.first().0 == name {
        let c = pairs.first().1;
        seq![(name, if c == u32::MAX { u32::MAX } else { (c + 1) as u32 })] + pairs.drop_first()
    } else {
        seq![pairs.first()] + spec_bump_count(pairs.drop_first(), name)
    }
}

/// Record one more execution of `name` in the per-cycle counts.
pub fn bump_cycle_count(counts: &mut Vec<(String, u32)>, name: &str)
    ensures
        view_pairs_u32(final(counts)@) == spec_bump_count(view_pairs_u32(old(counts)@), name@),
{
    let target = crate::text::chars_of(name);
    let ghost orig = view_pairs_u32(counts@);
    proof {
        assert(orig.take(0) =~= Seq::<(Seq<char>, u32)>::empty());
        assert(orig.skip(0) =~= orig);
        assert(orig.take(0) + spec_bump_count(orig.skip(0), name@) =~= spec_bump_count(
            orig,
            name@,
        ));
    }
    let mut k: usize = 0;
    while k < counts.len()
        invariant
            k <= counts@.len(),
            orig == view_pairs_u32(counts@),
            target@ == name@,
            forall|j: int| 0 <= j < k ==> (#[trigger] view_pairs_u32(counts@)[j]).0 != name@,
            spec_bump_count(orig, name@) == view_pairs_u32(counts@).take(k as int)
                + spec_bump_count(view_pairs_u32(counts@).skip(k as int), name@),
        decreases counts@.len() - k,
    {
        proof {
            let v = view_pairs_u32(counts@);
            assert(v.skip(k as int).first() == v[k as int]);
            assert(v.skip(k as int).drop_first() =~= v.skip(k + 1));
            assert(v.take(k + 1) =~= v.take(k as int) + seq![v[k as int]]);
        }
        let cn = crate::text::chars_of(counts[k].0.as_str());
        if crate::text::eq_chars(&cn, &target) {
            let c = counts[k].1;
            let bumped: u32 = if c == u32::MAX {
                u32::MAX
            } else {
                c + 1
            };
            let key = crate::stream::clone_string(&counts[k].0);
            counts.set(k, (key, bumped));
            proof {
                let v0 = orig;
                let v1 = view_pairs_u32(counts@);
                assert(v1 =~= v0.update(k as int, (name@, bumped)));
                assert(spec_bump_count(v0.skip(k as int), name@) =~= seq![(name@, bumped)]
                    + v0.skip(k + 1));
                assert(v0.take(k as int) + (seq![(name@, bumped)] + v0.skip(k + 1)) =~= v1);
            }
            return ;
        }
        proof {
            let v = view_pairs_u32(counts@);
            assert(v.take(k as int) + (seq![v[k as int]] + spec_bump_count(
                v.skip(k + 1),
                name@,
            )) =~= v.take(k + 1) + spec_bump_count(v.skip(k + 1), name@));
        }
        k = k + 1;
    }
    let ghost pre = view_pairs_u32(counts@);
    counts.push((name.to_owned(), 1));
    proof {
        assert(pre.skip(pre.len() as int) =~= Seq::<(Seq<char>, u32)>::empty());
        assert(spec_bump_count(pre.skip(pre.len() as int), name@) =~= seq![(name@, 1u32)]);
        assert(view_pairs_u32(counts@) =~= pre.push((name@, 1u32)));
        assert(pre.take(pre.len() as int) + seq![(name@, 1u32)] =~= pre.push((name@, 1u32)));
    }
}

} // verus!
