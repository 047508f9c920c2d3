//! Permission resolution: merge global, cycle and step permission lists.

use vstd::prelude::*;

use crate::config::{CycleConfig, GlobalConfig, StepConfig};
use crate::text::{
    spec_dedup_first, spec_distinct, chars_of, eq_chars, lemma_dedup_first_props,
};

verus! {

/// Append each entry of `add` that is not yet present, in order.
fn dedup_extend(out: &mut Vec<String>, add: &Vec<String>)
    requires
        old(out).deep_view() == spec_dedup_first(old(out).deep_view()),
    ensures
        final(out).deep_view() == spec_dedup_first(old(out).deep_view() + add.deep_view()),
{
    let ghost base = out.deep_view();
    let mut i: usize = 0;
    while i < add.len()
        invariant
            i <= add@.len(),
            out.deep_view() == spec_dedup_first(base + add.deep_view().take(i as int)),
            base == spec_dedup_first(base),
        decreases add@.len() - i,
    {
        let ghost sofar = base + add.deep_view().take(i as int);
        proof {
            assert((base + add.deep_view().take(i + 1)).drop_last() =~= sofar);
            assert((base + add.deep_view().take(i + 1)).last() == add.deep_view()[i as int]);
        }
        if !crate::stream::contains_string(out, &add[i]) {
            let ghost pre = out.deep_view();
            out.push(crate::stream::clone_string(&add[i]));
            proof {
                assert(out.deep_view() =~~= pre.push(add.deep_view()[i as int]));
            }
        }
        i = i + 1;
    }
    proof {
        assert(add.deep_view().take(add.deep_view().len() as int) =~= add.deep_view());
    }
}

/// The deduplicated concatenation of the lists is idempotent as a base.
proof fn lemma_dedup_idem(s: Seq<Seq<char>>)
    ensures
        spec_dedup_first(spec_dedup_first(s)) == spec_dedup_first(s),
{
    lemma_dedup_first_props(s);
    lemma_dedup_stable(spec_dedup_first(s));
}

/// Deduplicating an already distinct sequence changes nothing.
proof fn lemma_dedup_stable(s: Seq<Seq<char>>)
    requires
        spec_distinct(s),
    ensures
        spec_dedup_first(s) == s,
    decreases s.len(),
{
    if s.len() > 0 {
        assert forall|i: int, j: int| 0 <= i < j < s.drop_last().len() implies s.drop_last()[i]
            != s.drop_last()[j] by {
            assert(s.drop_last()[i] == s[i] && s.drop_last()[j] == s[j]);
        }
        lemma_dedup_stable(s.drop_last());
        if s.drop_last().contains(s.last()) {
            let i = choose|i: int|
                0 <= i < s.drop_last().len() && s.drop_last()[i] == s.last();
            assert(s[i] == s[s.len() - 1]);
            assert(false);
        }
        assert(spec_dedup_first(s) =~= s.drop_last().push(s.last()));
        assert(s.drop_last().push(s.last()) =~= s);
    } else {
        assert(spec_dedup_first(s) =~= s);
    }
}

/// Resolve a cycle's effective permissions: the global list first, then the
/// cycle's additions, deduplicated by first occurrence.
pub fn resolve_permissions(global: &GlobalConfig, cycle: &CycleConfig) -> (r: Vec<String>)
    ensures
        r.deep_view() == spec_dedup_first(
            global.permissions.deep_view() + cycle.permissions.deep_view(),
        ),
{
    let mut out: Vec<String> = Vec::new();
    proof {
        assert(out.deep_view() =~~= Seq::<Seq<char>>::empty());
        assert(spec_dedup_first(Seq::<Seq<char>>::empty()) =~~= Seq::<Seq<char>>::empty());
    }
    dedup_extend(&mut out, &global.permissions);
    proof {
        assert(Seq::<Seq<char>>::empty() + global.permissions.deep_view()
            =~= global.permissions.deep_view());
        lemma_dedup_idem(global.permissions.deep_view());
        lemma_dedup_prefix(global.permissions.deep_view(), cycle.permissions.deep_view());
    }
    dedup_extend(&mut out, &cycle.permissions);
    out
}

/// Resolve a step's effective permissions: global, then cycle, then step
/// additions, deduplicated by first occurrence.
pub fn resolve_step_permissions(
    global: &GlobalConfig,
    cycle: &CycleConfig,
    step: &StepConfig,
) -> (r: Vec<String>)
    ensures
        r.deep_view() == spec_dedup_first(
            global.permissions.deep_view() + cycle.permissions.deep_view()
                + step.permissions.deep_view(),
        ),
{
    let mut out = resolve_permissions(global, cycle);
    proof {
        let gc = global.permissions.deep_view() + cycle.permissions.deep_view();
        lemma_dedup_idem(gc);
        lemma_dedup_prefix(gc, step.permissions.deep_view());
    }
    dedup_extend(&mut out, &step.permissions);
    out
}

/// Deduplicating after a deduplicated prefix equals deduplicating the whole.
proof fn lemma_dedup_prefix(a: Seq<Seq<char>>, b: Seq<Seq<char>>)
    ensures
        spec_dedup_first(spec_dedup_first(a) + b) == spec_dedup_first(a + b),
    decreases b.len(),
{
    lemma_dedup_first_props(a);
    if b.len() == 0 {
        assert(spec_dedup_first(a) + b =~= spec_dedup_first(a));
        assert(a + b =~= a);
        lemma_dedup_idem(a);
    } else {
        lemma_dedup_prefix(a, b.drop_last());
        assert((spec_dedup_first(a) + b).drop_last() =~= spec_dedup_first(a) + b.drop_last());
        assert((a + b).drop_last() =~= a + b.drop_last());
        assert((spec_dedup_first(a) + b).last() == b.last());
        assert((a + b).last() == b.last());
    }
}

/// The resolver's result holds no duplicates, keeps the global list's order
/// first, then cycle additions, then step additions, and equals the
/// concatenation of the three lists deduplicated by first occurrence.
pub proof fn lemma_resolution_shape(g: Seq<Seq<char>>, c: Seq<Seq<char>>, s: Seq<Seq<char>>)
    ensures
        spec_distinct(spec_dedup_first(g + c + s)),
        forall|x: Seq<char>| spec_dedup_first(g + c + s).contains(x) <==> (g + c + s).contains(x),
{
    lemma_dedup_first_props(g + c + s);
}

} // verus!
