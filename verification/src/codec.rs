//! Serializing log records and progress snapshots to JSON, and reading
//! them back.
//!
//! The writers emit exactly the documented shapes; absent optional fields
//! are omitted, never written as null. The readers accept any JSON object,
//! ignore unknown fields, and demand the required ones.

use vstd::prelude::*;

use crate::json::{
    lemma_fields_depth_le, lemma_items_depth_le, lemma_parse_emitted, lemma_parse_emitted_pretty,
    spec_doc_depth, spec_emit_pretty, spec_format_micros, spec_num_micros, spec_num_u64,
    spec_obj_lookup, spec_parse_json, spec_writable, Json, JsonSpec, num_micros, num_u64, obj_get,
    push_micros, view_fields, MAX_TEXT_LEN,
};
use crate::outcome::{CycleOutcome, StepOutcome};
use crate::progress::{RunProgress, RunStatus};
use crate::text::{
    spec_format_nat, view_pairs_u32, chars_of, format_u64, push_chars, string_from_chars,
};

verus! {

// --- building blocks ---

/// A number node for an unsigned integer.
pub open spec fn spec_jnum(n: nat) -> JsonSpec {
    JsonSpec::Num(spec_format_nat(n))
}

/// A number node for a micro-dollar amount.
pub open spec fn spec_jmicros(m: u64) -> JsonSpec {
    JsonSpec::Num(spec_format_micros(m as nat))
}

fn jnum_u64(n: u64) -> (r: Json)
    ensures
        r@ == spec_jnum(n as nat),
{
    Json::Num(format_u64(n))
}

fn jmicros(m: u64) -> (r: Json)
    ensures
        r@ == spec_jmicros(m),
{
    let mut out: Vec<char> = Vec::new();
    push_micros(&mut out, m);
    proof {
        assert(out@ =~= spec_format_micros(m as nat));
    }
    Json::Num(out)
}

fn jstr(s: &String) -> (r: Json)
    ensures
        r@ == JsonSpec::Str(s@),
{
    let c = chars_of(s.as_str());
    Json::Str(c)
}

/// A string-array node for a list of strings.
pub open spec fn spec_jstrs(items: Seq<Seq<char>>) -> JsonSpec {
    JsonSpec::Arr(items.map_values(|s: Seq<char>| JsonSpec::Str(s)))
}

fn jstrs(items: &Vec<String>) -> (r: Json)
    ensures
        r@ == spec_jstrs(items.deep_view()),
{
    let mut out: Vec<Json> = Vec::new();
    let mut k: usize = 0;
    while k < items.len()
        invariant
            k <= items@.len(),
            out@.len() == k,
            forall|i: int|
                0 <= i < k ==> (#[trigger] out@[i])@ == JsonSpec::Str(items.deep_view()[i]),
        decreases items@.len() - k,
    {
        out.push(jstr(&items[k]));
        k = k + 1;
    }
    proof {
        crate::json::lemma_view_items_len(out@, 0);
        assert forall|i: int|
            0 <= i < crate::json::view_items(out@, 0).len() implies #[trigger] crate::json::view_items(
            out@,
            0,
        )[i] == items.deep_view().map_values(|s: Seq<char>| JsonSpec::Str(s))[i] by {
            crate::json::lemma_view_items_index(out@, 0, i);
        }
        assert(crate::json::view_items(out@, 0) =~= items.deep_view().map_values(
            |s: Seq<char>| JsonSpec::Str(s),
        ));
    }
    Json::Arr(out)
}

/// Push one field onto an object under construction.
fn push_field(fields: &mut Vec<(Vec<char>, Json)>, key: &str, value: Json)
    ensures
        view_fields(final(fields)@, 0) == view_fields(old(fields)@, 0).push((key@, value@)),
{
    let kc = chars_of(key);
    let ghost pre = fields@;
    let ghost gk = kc;
    let ghost gv = value;
    fields.push((kc, value));
    proof {
        assert(fields@ =~= pre.push((gk, gv)));
        crate::json::lemma_view_fields_push(pre, gk, gv, 0);
    }
}

// --- the progress snapshot ---

/// The status word.
pub open spec fn spec_status_text(s: RunStatus) -> Seq<char> {
    match s {
        RunStatus::Running => "running"@,
        RunStatus::Completed => "completed"@,
        RunStatus::Failed => "failed"@,
        RunStatus::Stopped => "stopped"@,
    }
}

/// The status for a word, if it is one.
pub open spec fn spec_status_of_text(t: Seq<char>) -> Option<RunStatus> {
    if t == "running"@ {
        Some(RunStatus::Running)
    } else if t == "completed"@ {
        Some(RunStatus::Completed)
    } else if t == "failed"@ {
        Some(RunStatus::Failed)
    } else if t == "stopped"@ {
        Some(RunStatus::Stopped)
    } else {
        None
    }
}

/// The words of the four statuses differ pairwise.
pub proof fn lemma_status_words_distinct()
    ensures
        forall|s: RunStatus| #[trigger] spec_status_of_text(spec_status_text(s)) == Some(s),
{
    reveal_strlit("running");
    reveal_strlit("completed");
    reveal_strlit("failed");
    reveal_strlit("stopped");
    assert forall|s: RunStatus| #[trigger] spec_status_of_text(spec_status_text(s)) == Some(
        s,
    ) by {
        assert("running"@.len() == 7);
        assert("completed"@.len() == 9);
        assert("failed"@.len() == 6);
        assert("stopped"@.len() == 7);
        assert("running"@[0] == 'r' && "stopped"@[0] == 's' && "failed"@[0] == 'f');
        match s {
            RunStatus::Running => {},
            RunStatus::Completed => {},
            RunStatus::Failed => {},
            RunStatus::Stopped => {},
        }
    }
}

fn status_text(s: &RunStatus) -> (r: String)
    ensures
        r@ == spec_status_text(*s),
{
    match s {
        RunStatus::Running => "running".to_owned(),
        RunStatus::Completed => "completed".to_owned(),
        RunStatus::Failed => "failed".to_owned(),
        RunStatus::Stopped => "stopped".to_owned(),
    }
}

fn status_of_text(t: &Vec<char>) -> (r: Option<RunStatus>)
    ensures
        r == spec_status_of_text(t@),
{
    if crate::text::eq_chars(t, &chars_of("running")) {
        Some(RunStatus::Running)
    } else if crate::text::eq_chars(t, &chars_of("completed")) {
        Some(RunStatus::Completed)
    } else if crate::text::eq_chars(t, &chars_of("failed")) {
        Some(RunStatus::Failed)
    } else if crate::text::eq_chars(t, &chars_of("stopped")) {
        Some(RunStatus::Stopped)
    } else {
        None
    }
}

/// The per-cycle counts as a JSON object.
pub open spec fn spec_counts_json(counts: Seq<(Seq<char>, u32)>) -> JsonSpec {
    JsonSpec::Obj(counts.map_values(|p: (Seq<char>, u32)| (p.0, spec_jnum(p.1 as nat))))
}

fn counts_json(counts: &Vec<(String, u32)>) -> (r: Json)
    ensures
        r@ == spec_counts_json(view_pairs_u32(counts@)),
{
    let mut out: Vec<(Vec<char>, Json)> = Vec::new();
    let mut k: usize = 0;
    while k < counts.len()
        invariant
            k <= counts@.len(),
            out@.len() == k,
            forall|i: int|
                0 <= i < k ==> (#[trigger] out@[i]).0@ == view_pairs_u32(counts@)[i].0
                    && out@[i].1@ == spec_jnum(view_pairs_u32(counts@)[i].1 as nat),
        decreases counts@.len() - k,
    {
        let kc = chars_of(counts[k].0.as_str());
        out.push((kc, jnum_u64(counts[k].1 as u64)));
        k = k + 1;
    }
    proof {
        crate::json::lemma_view_fields_len(out@, 0);
        let vp = view_pairs_u32(counts@);
        assert forall|i: int|
            0 <= i < view_fields(out@, 0).len() implies #[trigger] view_fields(out@, 0)[i]
            == vp.map_values(|p: (Seq<char>, u32)| (p.0, spec_jnum(p.1 as nat)))[i] by {
            crate::json::lemma_view_fields_index(out@, 0, i);
        }
        assert(view_fields(out@, 0) =~= vp.map_values(
            |p: (Seq<char>, u32)| (p.0, spec_jnum(p.1 as nat)),
        ));
    }
    Json::Obj(out)
}

/// The progress snapshot as a JSON object, fields in a fixed order, the
/// last outcome omitted when absent.
pub open spec fn spec_progress_json(p: RunProgress) -> JsonSpec {
    JsonSpec::Obj(
        seq![
            ("started_at"@, JsonSpec::Str(p.started_at@)),
            ("current_iteration"@, spec_jnum(p.current_iteration as nat)),
            ("max_iterations"@, spec_jnum(p.max_iterations as nat)),
            ("current_cycle"@, JsonSpec::Str(p.current_cycle@)),
            ("current_status"@, JsonSpec::Str(spec_status_text(p.current_status))),
            ("cycles_executed"@, spec_counts_json(view_pairs_u32(p.cycles_executed@))),
            ("total_duration_secs"@, spec_jnum(p.total_duration_secs as nat)),
            ("total_cost_usd"@, spec_jmicros(p.total_cost_micros)),
        ] + (match p.last_outcome {
            Some(t) => seq![("last_outcome"@, JsonSpec::Str(t@))],
            None => Seq::empty(),
        }),
    )
}

/// Serialize a progress snapshot to its JSON document.
pub fn progress_to_json(p: &RunProgress) -> (r: Json)
    ensures
        r@ == spec_progress_json(*p),
{
    let mut fields: Vec<(Vec<char>, Json)> = Vec::new();
    push_field(&mut fields, "started_at", jstr(&p.started_at));
    push_field(&mut fields, "current_iteration", jnum_u64(p.current_iteration as u64));
    push_field(&mut fields, "max_iterations", jnum_u64(p.max_iterations as u64));
    push_field(&mut fields, "current_cycle", jstr(&p.current_cycle));
    let st = status_text(&p.current_status);
    push_field(&mut fields, "current_status", jstr(&st));
    push_field(&mut fields, "cycles_executed", counts_json(&p.cycles_executed));
    push_field(&mut fields, "total_duration_secs", jnum_u64(p.total_duration_secs));
    push_field(&mut fields, "total_cost_usd", jmicros(p.total_cost_micros));
    match &p.last_outcome {
        Some(t) => {
            push_field(&mut fields, "last_outcome", jstr(t));
        },
        None => {},
    }
    proof {
        assert(view_fields(fields@, 0) =~= (match p.last_outcome {
            Some(t) => seq![
                ("started_at"@, JsonSpec::Str(p.started_at@)),
                ("current_iteration"@, spec_jnum(p.current_iteration as nat)),
                ("max_iterations"@, spec_jnum(p.max_iterations as nat)),
                ("current_cycle"@, JsonSpec::Str(p.current_cycle@)),
                ("current_status"@, JsonSpec::Str(spec_status_text(p.current_status))),
                ("cycles_executed"@, spec_counts_json(view_pairs_u32(p.cycles_executed@))),
                ("total_duration_secs"@, spec_jnum(p.total_duration_secs as nat)),
                ("total_cost_usd"@, spec_jmicros(p.total_cost_micros)),
                ("last_outcome"@, JsonSpec::Str(t@)),
            ],
            None => seq![
                ("started_at"@, JsonSpec::Str(p.started_at@)),
                ("current_iteration"@, spec_jnum(p.current_iteration as nat)),
                ("max_iterations"@, spec_jnum(p.max_iterations as nat)),
                ("current_cycle"@, JsonSpec::Str(p.current_cycle@)),
                ("current_status"@, JsonSpec::Str(spec_status_text(p.current_status))),
                ("cycles_executed"@, spec_counts_json(view_pairs_u32(p.cycles_executed@))),
                ("total_duration_secs"@, spec_jnum(p.total_duration_secs as nat)),
                ("total_cost_usd"@, spec_jmicros(p.total_cost_micros)),
            ],
        }));
    }
    let r = Json::Obj(fields);
    proof {
        assert(r@ == spec_progress_json(*p)) by {
            assert(view_fields(fields@, 0) =~= match spec_progress_json(*p) {
                JsonSpec::Obj(f) => f,
                _ => Seq::empty(),
            });
        }
    }
    r
}

/// The counts read off an object's fields, in order: every value must be an
/// integer that fits a `u32`.
pub open spec fn spec_counts_read(fields: Seq<(Seq<char>, JsonSpec)>) -> Option<
    Seq<(Seq<char>, u32)>,
>
    decreases fields.len(),
{
    if fields.len() == 0 {
        Some(Seq::empty())
    } else {
        match spec_counts_read(fields.drop_last()) {
            Some(pre) => match fields.last().1 {
                JsonSpec::Num(raw) => match spec_num_u64(raw) {
                    Some(n) => if n <= u32::MAX {
                        Some(pre.push((fields.last().0, n as u32)))
                    } else {
                        None
                    },
                    None => None,
                },
                _ => None,
            },
            None => None,
        }
    }
}

/// The document carries everything a snapshot needs, well-typed.
pub open spec fn spec_progress_readable(v: JsonSpec) -> bool {
    &&& (crate::json::spec_get(v, "started_at"@) matches Some(JsonSpec::Str(_)))
    &&& (match crate::json::spec_get(v, "current_iteration"@) {
        Some(JsonSpec::Num(raw)) => spec_num_u64(raw) matches Some(n) && n <= u32::MAX,
        _ => false,
    })
    &&& (match crate::json::spec_get(v, "max_iterations"@) {
        Some(JsonSpec::Num(raw)) => spec_num_u64(raw) matches Some(n) && n <= u32::MAX,
        _ => false,
    })
    &&& (crate::json::spec_get(v, "current_cycle"@) matches Some(JsonSpec::Str(_)))
    &&& (match crate::json::spec_get(v, "current_status"@) {
        Some(JsonSpec::Str(s)) => spec_status_of_text(s) is Some,
        _ => false,
    })
    &&& (match crate::json::spec_get(v, "cycles_executed"@) {
        Some(JsonSpec::Obj(fields)) => spec_counts_read(fields) is Some,
        _ => false,
    })
    &&& (match crate::json::spec_get(v, "total_duration_secs"@) {
        Some(JsonSpec::Num(raw)) => spec_num_u64(raw) is Some,
        _ => false,
    })
    &&& (match crate::json::spec_get(v, "total_cost_usd"@) {
        Some(JsonSpec::Num(raw)) => spec_num_micros(raw) is Some,
        None => true,
        _ => false,
    })
    &&& (match crate::json::spec_get(v, "last_outcome"@) {
        Some(JsonSpec::Str(_)) => true,
        Some(JsonSpec::Null) => true,
        None => true,
        _ => false,
    })
}

/// The snapshot a readable document denotes, field by field.
pub open spec fn spec_progress_fields(v: JsonSpec, p: RunProgress) -> bool {
    &&& (match crate::json::spec_get(v, "started_at"@) {
        Some(JsonSpec::Str(s)) => p.started_at@ == s,
        _ => false,
    })
    &&& (match crate::json::spec_get(v, "current_iteration"@) {
        Some(JsonSpec::Num(raw)) => spec_num_u64(raw) == Some(p.current_iteration as nat),
        _ => false,
    })
    &&& (match crate::json::spec_get(v, "max_iterations"@) {
        Some(JsonSpec::Num(raw)) => spec_num_u64(raw) == Some(p.max_iterations as nat),
        _ => false,
    })
    &&& (match crate::json::spec_get(v, "current_cycle"@) {
        Some(JsonSpec::Str(s)) => p.current_cycle@ == s,
        _ => false,
    })
    &&& (match crate::json::spec_get(v, "current_status"@) {
        Some(JsonSpec::Str(s)) => spec_status_of_text(s) == Some(p.current_status),
        _ => false,
    })
    &&& (match crate::json::spec_get(v, "cycles_executed"@) {
        Some(JsonSpec::Obj(fields)) => spec_counts_read(fields) == Some(
            view_pairs_u32(p.cycles_executed@),
        ),
        _ => false,
    })
    &&& (match crate::json::spec_get(v, "total_duration_secs"@) {
        Some(JsonSpec::Num(raw)) => spec_num_u64(raw) == Some(p.total_duration_secs as nat),
        _ => false,
    })
    &&& (match crate::json::spec_get(v, "total_cost_usd"@) {
        Some(JsonSpec::Num(raw)) => spec_num_micros(raw) == Some(p.total_cost_micros as nat),
        None => p.total_cost_micros == 0,
        _ => false,
    })
    &&& (match crate::json::spec_get(v, "last_outcome"@) {
        Some(JsonSpec::Str(s)) => p.last_outcome matches Some(t) && t@ == s,
        Some(JsonSpec::Null) => p.last_outcome is None,
        None => p.last_outcome is None,
        _ => false,
    })
}

/// Read a snapshot off a JSON document; `None` exactly when a required
/// field is missing or ill-typed.
#[verifier::rlimit(100)]
#[verifier::spinoff_prover]
pub fn progress_of_json(v: &Json) -> (r: Option<RunProgress>)
    ensures
        r is Some <==> spec_progress_readable(v@),
        match r {
            Some(p) => spec_progress_fields(v@, p),
            None => true,
        },
{
    let fields = match v {
        Json::Obj(f) => Some(f),
        _ => None,
    };
    let fields = match fields {
        Some(f) => f,
        None => {
            return None;
        },
    };
    let started_at: String = match obj_get(fields, "started_at") {
        Some(Json::Str(s)) => string_from_chars(&crate::stream::copy_chars_pub(s)),
        _ => {
            return None;
        },
    };
    let current_iteration: u32 = match obj_get(fields, "current_iteration") {
        Some(Json::Num(raw)) => match num_u64(raw) {
            Some(n) => {
                if n > 0xffff_ffff {
                    return None;
                }
                n as u32
            },
            None => {
                return None;
            },
        },
        _ => {
            return None;
        },
    };
    let max_iterations: u32 = match obj_get(fields, "max_iterations") {
        Some(Json::Num(raw)) => match num_u64(raw) {
            Some(n) => {
                if n > 0xffff_ffff {
                    return None;
                }
                n as u32
            },
            None => {
                return None;
            },
        },
        _ => {
            return None;
        },
    };
    let current_cycle: String = match obj_get(fields, "current_cycle") {
        Some(Json::Str(s)) => string_from_chars(&crate::stream::copy_chars_pub(s)),
        _ => {
            return None;
        },
    };
    let current_status: RunStatus = match obj_get(fields, "current_status") {
        Some(Json::Str(s)) => match status_of_text(s) {
            Some(st) => st,
            None => {
                return None;
            },
        },
        _ => {
            return None;
        },
    };
    let cycles_executed: Vec<(String, u32)> = match obj_get(fields, "cycles_executed") {
        Some(Json::Obj(cf)) => match counts_of_fields(cf) {
            Some(c) => c,
            None => {
                return None;
            },
        },
        _ => {
            return None;
        },
    };
    let total_duration_secs: u64 = match obj_get(fields, "total_duration_secs") {
        Some(Json::Num(raw)) => match num_u64(raw) {
            Some(n) => n,
            None => {
                return None;
            },
        },
        _ => {
            return None;
        },
    };
    let total_cost_micros: u64 = match obj_get(fields, "total_cost_usd") {
        Some(Json::Num(raw)) => match num_micros(raw) {
            Some(n) => n,
            None => {
                return None;
            },
        },
        None => 0,
        _ => {
            return None;
        },
    };
    let last_outcome: Option<String> = match obj_get(fields, "last_outcome") {
        Some(Json::Str(s)) => Some(string_from_chars(&crate::stream::copy_chars_pub(s))),
        Some(Json::Null) => None,
        None => None,
        _ => {
            return None;
        },
    };
    Some(
        RunProgress {
            started_at,
            current_iteration,
            max_iterations,
            current_cycle,
            current_status,
            cycles_executed,
            total_duration_secs,
            total_cost_micros,
            last_outcome,
        },
    )
}

/// Read per-cycle counts off an object's field list.
fn counts_of_fields(cf: &Vec<(Vec<char>, Json)>) -> (r: Option<Vec<(String, u32)>>)
    ensures
        match r {
            Some(c) => spec_counts_read(view_fields(cf@, 0)) == Some(view_pairs_u32(c@)),
            None => spec_counts_read(view_fields(cf@, 0)) is None,
        },
{
    let ghost vf = view_fields(cf@, 0);
    proof {
        crate::json::lemma_view_fields_len(cf@, 0);
    }
    let mut out: Vec<(String, u32)> = Vec::new();
    let mut k: usize = 0;
    proof {
        assert(vf.take(0) =~= Seq::<(Seq<char>, JsonSpec)>::empty());
        assert(view_pairs_u32(out@) =~= Seq::<(Seq<char>, u32)>::empty());
    }
    while k < cf.len()
        invariant
            k <= cf@.len(),
            vf == view_fields(cf@, 0),
            vf.len() == cf@.len(),
            spec_counts_read(vf.take(k as int)) == Some(view_pairs_u32(out@)),
        decreases cf@.len() - k,
    {
        proof {
            crate::json::lemma_view_fields_index(cf@, 0, k as int);
            assert(vf.take(k + 1).drop_last() =~= vf.take(k as int));
            assert(vf.take(k + 1).last() == vf[k as int]);
        }
        let n: u32 = match &cf[k].1 {
            Json::Num(raw) => match num_u64(raw) {
                Some(n) => {
                    if n > 0xffff_ffff {
                        proof {
                            lemma_counts_read_none(vf, k + 1);
                        }
                        return None;
                    }
                    n as u32
                },
                None => {
                    proof {
                        lemma_counts_read_none(vf, k + 1);
                    }
                    return None;
                },
            },
            _ => {
                proof {
                    lemma_counts_read_none(vf, k + 1);
                }
                return None;
            },
        };
        let key = string_from_chars(&crate::stream::copy_chars_pub(&cf[k].0));
        let ghost pre = view_pairs_u32(out@);
        out.push((key, n));
        proof {
            assert(view_pairs_u32(out@) =~= pre.push((vf[k as int].0, n)));
        }
        k = k + 1;
    }
    proof {
        assert(vf.take(vf.len() as int) =~= vf);
    }
    Some(out)
}

/// Once a prefix fails to read, the whole list fails.
proof fn lemma_counts_read_none(fields: Seq<(Seq<char>, JsonSpec)>, k: int)
    requires
        0 <= k <= fields.len(),
        spec_counts_read(fields.take(k)) is None,
    ensures
        spec_counts_read(fields) is None,
    decreases fields.len() - k,
{
    if k < fields.len() {
        assert(fields.take(k + 1).drop_last() =~= fields.take(k));
        lemma_counts_read_none(fields, k + 1);
    } else {
        assert(fields.take(k) =~= fields);
    }
}


/// Looking up the key of position `i` finds its value when no later field
/// shadows it.
proof fn lemma_lookup_at(fields: Seq<(Seq<char>, JsonSpec)>, i: int)
    requires
        0 <= i < fields.len(),
        forall|j: int| i < j < fields.len() ==> (#[trigger] fields[j]).0 != fields[i].0,
    ensures
        spec_obj_lookup(fields, fields[i].0) == Some(fields[i].1),
    decreases fields.len(),
{
    if i == fields.len() - 1 {
    } else {
        assert(fields.last().0 != fields[i].0);
        assert(fields.drop_last()[i] == fields[i]);
        lemma_lookup_at(fields.drop_last(), i);
    }
}

/// Looking up a key no field carries finds nothing.
proof fn lemma_lookup_absent(fields: Seq<(Seq<char>, JsonSpec)>, key: Seq<char>)
    requires
        forall|j: int| 0 <= j < fields.len() ==> (#[trigger] fields[j]).0 != key,
    ensures
        spec_obj_lookup(fields, key) is None,
    decreases fields.len(),
{
    if fields.len() > 0 {
        assert(fields.drop_last().len() < fields.len());
        assert forall|j: int| 0 <= j < fields.drop_last().len() implies (
        #[trigger] fields.drop_last()[j]).0 != key by {
            assert(fields.drop_last()[j] == fields[j]);
        }
        lemma_lookup_absent(fields.drop_last(), key);
    }
}

/// Each field of the written document looks up to what was written.
proof fn lemma_progress_json_lookups(p: RunProgress)
    ensures
        crate::json::spec_get(spec_progress_json(p), "started_at"@) == Some(
            JsonSpec::Str(p.started_at@),
        ),
        crate::json::spec_get(spec_progress_json(p), "current_iteration"@) == Some(
            spec_jnum(p.current_iteration as nat),
        ),
        crate::json::spec_get(spec_progress_json(p), "max_iterations"@) == Some(
            spec_jnum(p.max_iterations as nat),
        ),
        crate::json::spec_get(spec_progress_json(p), "current_cycle"@) == Some(
            JsonSpec::Str(p.current_cycle@),
        ),
        crate::json::spec_get(spec_progress_json(p), "current_status"@) == Some(
            JsonSpec::Str(spec_status_text(p.current_status)),
        ),
        crate::json::spec_get(spec_progress_json(p), "cycles_executed"@) == Some(
            spec_counts_json(view_pairs_u32(p.cycles_executed@)),
        ),
        crate::json::spec_get(spec_progress_json(p), "total_duration_secs"@) == Some(
            spec_jnum(p.total_duration_secs as nat),
        ),
        crate::json::spec_get(spec_progress_json(p), "total_cost_usd"@) == Some(
            spec_jmicros(p.total_cost_micros),
        ),
        crate::json::spec_get(spec_progress_json(p), "last_outcome"@) == (
        match p.last_outcome {
            Some(t) => Some(JsonSpec::Str(t@)),
            None => None,
        }),
{
    reveal_strlit("started_at");
    reveal_strlit("current_iteration");
    reveal_strlit("max_iterations");
    reveal_strlit("current_cycle");
    reveal_strlit("current_status");
    reveal_strlit("cycles_executed");
    reveal_strlit("total_duration_secs");
    reveal_strlit("total_cost_usd");
    reveal_strlit("last_outcome");
    let base = seq![
        ("started_at"@, JsonSpec::Str(p.started_at@)),
        ("current_iteration"@, spec_jnum(p.current_iteration as nat)),
        ("max_iterations"@, spec_jnum(p.max_iterations as nat)),
        ("current_cycle"@, JsonSpec::Str(p.current_cycle@)),
        ("current_status"@, JsonSpec::Str(spec_status_text(p.current_status))),
        ("cycles_executed"@, spec_counts_json(view_pairs_u32(p.cycles_executed@))),
        ("total_duration_secs"@, spec_jnum(p.total_duration_secs as nat)),
        ("total_cost_usd"@, spec_jmicros(p.total_cost_micros)),
    ];
    assert("started_at"@.len() == 10);
    assert("current_iteration"@.len() == 17);
    assert("max_iterations"@.len() == 14);
    assert("current_cycle"@.len() == 13);
    assert("current_status"@.len() == 14);
    assert("cycles_executed"@.len() == 15);
    assert("total_duration_secs"@.len() == 19);
    assert("total_cost_usd"@.len() == 14);
    assert("last_outcome"@.len() == 12);
    assert("max_iterations"@[0] == 'm');
    assert("current_status"@[0] == 'c');
    assert("total_cost_usd"@[0] == 't');
    let whole = match p.last_outcome {
        Some(t) => base + seq![("last_outcome"@, JsonSpec::Str(t@))],
        None => base,
    };
    assert(spec_progress_json(p) == JsonSpec::Obj(whole));
    assert(whole.len() == if p.last_outcome is Some { 9int } else { 8int });
    assert forall|i: int| 0 <= i < 8 implies whole[i] == base[i] by {
        match p.last_outcome {
            Some(t) => {},
            None => {},
        }
    }
    assert forall|i: int, j: int| 0 <= i < j < whole.len() implies (#[trigger] whole[j]).0 != (
    #[trigger] whole[i]).0 by {
        assert(whole[i].0.len() != whole[j].0.len() || whole[i].0[0] != whole[j].0[0] || i == j);
    }
    let ghost w = whole;
    assert forall|i: int| 0 <= i < w.len() implies spec_obj_lookup(w, (#[trigger] w[i]).0)
        == Some(w[i].1) by {
        lemma_lookup_at(w, i);
    }
    match p.last_outcome {
        Some(t) => {
            assert(w[8].0 == "last_outcome"@ && w[8].1 == JsonSpec::Str(t@));
        },
        None => {
            assert forall|j: int| 0 <= j < w.len() implies (#[trigger] w[j]).0
                != "last_outcome"@ by {
                assert(w[j].0.len() != "last_outcome"@.len() || w[j].0[0] != 'l');
            }
            lemma_lookup_absent(w, "last_outcome"@);
        },
    }
    assert(w[0].0 == "started_at"@ && w[0].1 == JsonSpec::Str(p.started_at@));
    assert(w[1].0 == "current_iteration"@);
    assert(w[2].0 == "max_iterations"@);
    assert(w[3].0 == "current_cycle"@);
    assert(w[4].0 == "current_status"@);
    assert(w[5].0 == "cycles_executed"@);
    assert(w[6].0 == "total_duration_secs"@);
    assert(w[7].0 == "total_cost_usd"@);
}

/// Reading the written counts object yields the written counts.
proof fn lemma_counts_roundtrip(counts: Seq<(Seq<char>, u32)>)
    ensures
        spec_counts_read(
            counts.map_values(|q: (Seq<char>, u32)| (q.0, spec_jnum(q.1 as nat))),
        ) == Some(counts),
    decreases counts.len(),
{
    let mapped = counts.map_values(|q: (Seq<char>, u32)| (q.0, spec_jnum(q.1 as nat)));
    if counts.len() == 0 {
        assert(mapped.len() == 0);
        assert(spec_counts_read(mapped) == Some(Seq::<(Seq<char>, u32)>::empty()));
        assert(Seq::<(Seq<char>, u32)>::empty() =~= counts);
    } else {
        lemma_counts_roundtrip(counts.drop_last());
        assert(mapped.drop_last() =~= counts.drop_last().map_values(
            |q: (Seq<char>, u32)| (q.0, spec_jnum(q.1 as nat)),
        ));
        assert(mapped.last() == (counts.last().0, spec_jnum(counts.last().1 as nat)));
        crate::text::lemma_format_nat_val(counts.last().1 as nat);
        assert(spec_num_u64(spec_format_nat(counts.last().1 as nat)) == Some(
            counts.last().1 as nat,
        ));
        assert(spec_counts_read(mapped) == Some(
            spec_counts_read(mapped.drop_last())->0.push((counts.last().0, counts.last().1)),
        ));
        assert(counts.drop_last().push((counts.last().0, counts.last().1)) =~= counts);
    }
}

/// The progress snapshot round trip: a snapshot written to its JSON
/// document and read back comes out with exactly the same contents —
/// the text of every field, the status, the per-cycle counts in order, the
/// totals and the optional last outcome.
pub proof fn lemma_progress_round_trip(p: RunProgress, q: RunProgress)
    requires
        spec_progress_fields(spec_progress_json(p), q),
    ensures
        q.started_at@ == p.started_at@,
        q.current_iteration == p.current_iteration,
        q.max_iterations == p.max_iterations,
        q.current_cycle@ == p.current_cycle@,
        q.current_status == p.current_status,
        view_pairs_u32(q.cycles_executed@) == view_pairs_u32(p.cycles_executed@),
        q.total_duration_secs == p.total_duration_secs,
        q.total_cost_micros == p.total_cost_micros,
        match (p.last_outcome, q.last_outcome) {
            (Some(a), Some(b)) => a@ == b@,
            (None, None) => true,
            _ => false,
        },
{
    lemma_progress_json_lookups(p);
    crate::text::lemma_format_nat_val(p.current_iteration as nat);
    crate::text::lemma_format_nat_val(p.max_iterations as nat);
    crate::text::lemma_format_nat_val(p.total_duration_secs as nat);
    crate::json::lemma_micros_roundtrip(p.total_cost_micros);
    lemma_status_words_distinct();
    lemma_counts_roundtrip(view_pairs_u32(p.cycles_executed@));
}

/// And the written document is always readable.
pub proof fn lemma_progress_json_readable(p: RunProgress)
    ensures
        spec_progress_readable(spec_progress_json(p)),
{
    lemma_progress_json_lookups(p);
    crate::text::lemma_format_nat_val(p.current_iteration as nat);
    crate::text::lemma_format_nat_val(p.max_iterations as nat);
    crate::text::lemma_format_nat_val(p.total_duration_secs as nat);
    crate::json::lemma_micros_roundtrip(p.total_cost_micros);
    lemma_status_words_distinct();
    lemma_counts_roundtrip(view_pairs_u32(p.cycles_executed@));
}

// --- the history-log record ---

/// One step's breakdown as a JSON object.
pub open spec fn spec_step_json(s: StepOutcome) -> JsonSpec {
    JsonSpec::Obj(
        seq![("name"@, JsonSpec::Str(s.name@))] + (match s.session {
            Some(t) => seq![("session"@, JsonSpec::Str(t@))],
            None => Seq::empty(),
        }) + seq![("duration_secs"@, spec_jnum(s.duration_secs as nat))] + (match s.num_turns {
            Some(n) => seq![("num_turns"@, spec_jnum(n as nat))],
            None => Seq::empty(),
        }) + (match s.cost_micros {
            Some(c) => seq![("cost_usd"@, spec_jmicros(c))],
            None => Seq::empty(),
        }),
    )
}

/// The step list as a JSON array.
pub open spec fn spec_steps_json(steps: Seq<StepOutcome>) -> JsonSpec {
    JsonSpec::Arr(steps.map_values(|s: StepOutcome| spec_step_json(s)))
}

/// A log record as a JSON object: the required fields in a fixed order,
/// optional fields appended only when present.
pub open spec fn spec_outcome_json(o: CycleOutcome) -> JsonSpec {
    JsonSpec::Obj(
        seq![
            ("iteration"@, spec_jnum(o.iteration as nat)),
            ("cycle"@, JsonSpec::Str(o.cycle@)),
            ("timestamp"@, JsonSpec::Str(o.timestamp@)),
            ("outcome"@, JsonSpec::Str(o.outcome@)),
            ("files_changed"@, spec_jstrs(o.files_changed.deep_view())),
            ("tests_passed"@, spec_jnum(o.tests_passed as nat)),
            ("duration_secs"@, spec_jnum(o.duration_secs as nat)),
        ] + (match o.num_turns {
            Some(n) => seq![("num_turns"@, spec_jnum(n as nat))],
            None => Seq::empty(),
        }) + (match o.total_cost_micros {
            Some(c) => seq![("total_cost_usd"@, spec_jmicros(c))],
            None => Seq::empty(),
        }) + (match o.permission_denial_count {
            Some(d) => seq![("permission_denial_count"@, spec_jnum(d as nat))],
            None => Seq::empty(),
        }) + (match o.permission_denials {
            Some(d) => seq![("permission_denials"@, spec_jstrs(d.deep_view()))],
            None => Seq::empty(),
        }) + (match o.steps {
            Some(s) => seq![("steps"@, spec_steps_json(s@))],
            None => Seq::empty(),
        }),
    )
}

fn step_to_json(s: &StepOutcome) -> (r: Json)
    ensures
        r@ == spec_step_json(*s),
{
    let mut fields: Vec<(Vec<char>, Json)> = Vec::new();
    push_field(&mut fields, "name", jstr(&s.name));
    match &s.session {
        Some(tag) => {
            push_field(&mut fields, "session", jstr(tag));
        },
        None => {},
    }
    push_field(&mut fields, "duration_secs", jnum_u64(s.duration_secs));
    match s.num_turns {
        Some(n) => {
            push_field(&mut fields, "num_turns", jnum_u64(n as u64));
        },
        None => {},
    }
    match s.cost_micros {
        Some(c) => {
            push_field(&mut fields, "cost_usd", jmicros(c));
        },
        None => {},
    }
    let r = Json::Obj(fields);
    proof {
        assert(view_fields(fields@, 0) =~= match spec_step_json(*s) {
            JsonSpec::Obj(f) => f,
            _ => Seq::empty(),
        });
    }
    r
}

/// Serialize a log record to its JSON document.
#[verifier::rlimit(60)]
pub fn outcome_to_json(o: &CycleOutcome) -> (r: Json)
    ensures
        r@ == spec_outcome_json(*o),
{
    let mut fields: Vec<(Vec<char>, Json)> = Vec::new();
    push_field(&mut fields, "iteration", jnum_u64(o.iteration as u64));
    push_field(&mut fields, "cycle", jstr(&o.cycle));
    push_field(&mut fields, "timestamp", jstr(&o.timestamp));
    push_field(&mut fields, "outcome", jstr(&o.outcome));
    push_field(&mut fields, "files_changed", jstrs(&o.files_changed));
    push_field(&mut fields, "tests_passed", jnum_u64(o.tests_passed as u64));
    push_field(&mut fields, "duration_secs", jnum_u64(o.duration_secs));
    match o.num_turns {
        Some(n) => {
            push_field(&mut fields, "num_turns", jnum_u64(n as u64));
        },
        None => {},
    }
    match o.total_cost_micros {
        Some(c) => {
            push_field(&mut fields, "total_cost_usd", jmicros(c));
        },
        None => {},
    }
    match o.permission_denial_count {
        Some(d) => {
            push_field(&mut fields, "permission_denial_count", jnum_u64(d as u64));
        },
        None => {},
    }
    match &o.permission_denials {
        Some(d) => {
            push_field(&mut fields, "permission_denials", jstrs(d));
        },
        None => {},
    }
    match &o.steps {
        Some(steps) => {
            let mut items: Vec<Json> = Vec::new();
            let mut k: usize = 0;
            while k < steps.len()
                invariant
                    k <= steps@.len(),
                    items@.len() == k,
                    forall|i: int|
                        0 <= i < k ==> (#[trigger] items@[i])@ == spec_step_json(steps@[i]),
                decreases steps@.len() - k,
            {
                items.push(step_to_json(&steps[k]));
                k = k + 1;
            }
            proof {
                crate::json::lemma_view_items_len(items@, 0);
                assert forall|i: int|
                    0 <= i < crate::json::view_items(items@, 0).len() implies #[trigger] crate::json::view_items(
                    items@,
                    0,
                )[i] == steps@.map_values(|s: StepOutcome| spec_step_json(s))[i] by {
                    crate::json::lemma_view_items_index(items@, 0, i);
                }
                assert(crate::json::view_items(items@, 0) =~= steps@.map_values(
                    |s: StepOutcome| spec_step_json(s),
                ));
            }
            push_field(&mut fields, "steps", Json::Arr(items));
        },
        None => {},
    }
    let r = Json::Obj(fields);
    proof {
        assert(view_fields(fields@, 0) =~= match spec_outcome_json(*o) {
            JsonSpec::Obj(f) => f,
            _ => Seq::empty(),
        });
    }
    r
}

/// A step's document carries everything a step breakdown needs.
pub open spec fn spec_step_readable(v: JsonSpec) -> bool {
    &&& (crate::json::spec_get(v, "name"@) matches Some(JsonSpec::Str(_)))
    &&& (match crate::json::spec_get(v, "session"@) {
        Some(JsonSpec::Str(_)) => true,
        Some(JsonSpec::Null) => true,
        None => true,
        _ => false,
    })
    &&& (match crate::json::spec_get(v, "duration_secs"@) {
        Some(JsonSpec::Num(raw)) => spec_num_u64(raw) is Some,
        _ => false,
    })
    &&& (match crate::json::spec_get(v, "num_turns"@) {
        Some(JsonSpec::Num(raw)) => spec_num_u64(raw) matches Some(n) && n <= u32::MAX,
        Some(JsonSpec::Null) => true,
        None => true,
        _ => false,
    })
    &&& (match crate::json::spec_get(v, "cost_usd"@) {
        Some(JsonSpec::Num(raw)) => spec_num_micros(raw) is Some,
        Some(JsonSpec::Null) => true,
        None => true,
        _ => false,
    })
}

/// The step a readable step document denotes, field by field.
pub open spec fn spec_step_fields(v: JsonSpec, s: StepOutcome) -> bool {
    &&& (match crate::json::spec_get(v, "name"@) {
        Some(JsonSpec::Str(x)) => s.name@ == x,
        _ => false,
    })
    &&& (match crate::json::spec_get(v, "session"@) {
        Some(JsonSpec::Str(x)) => s.session matches Some(t) && t@ == x,
        Some(JsonSpec::Null) => s.session is None,
        None => s.session is None,
        _ => false,
    })
    &&& (match crate::json::spec_get(v, "duration_secs"@) {
        Some(JsonSpec::Num(raw)) => spec_num_u64(raw) == Some(s.duration_secs as nat),
        _ => false,
    })
    &&& (match crate::json::spec_get(v, "num_turns"@) {
        Some(JsonSpec::Num(raw)) => s.num_turns matches Some(n) && spec_num_u64(raw) == Some(
            n as nat,
        ),
        Some(JsonSpec::Null) => s.num_turns is None,
        None => s.num_turns is None,
        _ => false,
    })
    &&& (match crate::json::spec_get(v, "cost_usd"@) {
        Some(JsonSpec::Num(raw)) => s.cost_micros matches Some(c) && spec_num_micros(raw)
            == Some(c as nat),
        Some(JsonSpec::Null) => s.cost_micros is None,
        None => s.cost_micros is None,
        _ => false,
    })
}

/// Every element of the step array is a readable step document.
pub open spec fn spec_steps_readable(items: Seq<JsonSpec>) -> bool {
    forall|j: int| 0 <= j < items.len() ==> spec_step_readable(#[trigger] items[j])
}

/// The whole step list a readable step array denotes.
pub open spec fn spec_steps_fields(items: Seq<JsonSpec>, steps: Seq<StepOutcome>) -> bool {
    steps.len() == items.len() && forall|j: int|
        0 <= j < items.len() ==> spec_step_fields(#[trigger] items[j], steps[j])
}

/// Read one step breakdown off its document.
#[verifier::rlimit(60)]
fn step_of_json(v: &Json) -> (r: Option<StepOutcome>)
    ensures
        r is Some <==> spec_step_readable(v@),
        match r {
            Some(s) => spec_step_fields(v@, s),
            None => true,
        },
{
    let fields = match v {
        Json::Obj(f) => Some(f),
        _ => None,
    };
    let fields = match fields {
        Some(f) => f,
        None => {
            return None;
        },
    };
    let name: String = match obj_get(fields, "name") {
        Some(Json::Str(s)) => string_from_chars(&crate::stream::copy_chars_pub(s)),
        _ => {
            return None;
        },
    };
    let session: Option<String> = match obj_get(fields, "session") {
        Some(Json::Str(s)) => Some(string_from_chars(&crate::stream::copy_chars_pub(s))),
        Some(Json::Null) => None,
        None => None,
        _ => {
            return None;
        },
    };
    let duration_secs: u64 = match obj_get(fields, "duration_secs") {
        Some(Json::Num(raw)) => match num_u64(raw) {
            Some(n) => n,
            None => {
                return None;
            },
        },
        _ => {
            return None;
        },
    };
    let num_turns: Option<u32> = match obj_get(fields, "num_turns") {
        Some(Json::Num(raw)) => match num_u64(raw) {
            Some(n) => {
                if n > 0xffff_ffff {
                    return None;
                }
                Some(n as u32)
            },
            None => {
                return None;
            },
        },
        Some(Json::Null) => None,
        None => None,
        _ => {
            return None;
        },
    };
    let cost_micros: Option<u64> = match obj_get(fields, "cost_usd") {
        Some(Json::Num(raw)) => match num_micros(raw) {
            Some(n) => Some(n),
            None => {
                return None;
            },
        },
        Some(Json::Null) => None,
        None => None,
        _ => {
            return None;
        },
    };
    Some(StepOutcome { name, session, duration_secs, num_turns, cost_micros })
}

/// Read a whole step list off an array's items.
fn steps_of_items(items: &Vec<Json>) -> (r: Option<Vec<StepOutcome>>)
    ensures
        r is Some <==> spec_steps_readable(crate::json::view_items(items@, 0)),
        match r {
            Some(steps) => spec_steps_fields(crate::json::view_items(items@, 0), steps@),
            None => true,
        },
{
    let ghost iv = crate::json::view_items(items@, 0);
    proof {
        crate::json::lemma_view_items_len(items@, 0);
    }
    let mut out: Vec<StepOutcome> = Vec::new();
    let mut k: usize = 0;
    while k < items.len()
        invariant
            k <= items@.len(),
            iv == crate::json::view_items(items@, 0),
            iv.len() == items@.len(),
            out@.len() == k,
            forall|j: int| 0 <= j < k ==> spec_step_readable(#[trigger] iv[j]),
            forall|j: int| 0 <= j < k ==> spec_step_fields(#[trigger] iv[j], out@[j]),
        decreases items@.len() - k,
    {
        proof {
            crate::json::lemma_view_items_index(items@, 0, k as int);
            assert(iv[k as int] == items@[k as int]@);
        }
        match step_of_json(&items[k]) {
            Some(s) => {
                out.push(s);
            },
            None => {
                return None;
            },
        }
        k = k + 1;
    }
    Some(out)
}

/// The record a readable document denotes, field by field; the reader
/// ignores fields it does not know.
pub open spec fn spec_outcome_fields(v: JsonSpec, o: CycleOutcome) -> bool {
    &&& (match crate::json::spec_get(v, "iteration"@) {
        Some(JsonSpec::Num(raw)) => spec_num_u64(raw) == Some(o.iteration as nat),
        _ => false,
    })
    &&& (match crate::json::spec_get(v, "cycle"@) {
        Some(JsonSpec::Str(s)) => o.cycle@ == s,
        _ => false,
    })
    &&& (match crate::json::spec_get(v, "timestamp"@) {
        Some(JsonSpec::Str(s)) => o.timestamp@ == s,
        _ => false,
    })
    &&& (match crate::json::spec_get(v, "outcome"@) {
        Some(JsonSpec::Str(s)) => o.outcome@ == s,
        _ => false,
    })
    &&& (match crate::json::spec_get(v, "files_changed"@) {
        Some(JsonSpec::Arr(items)) => o.files_changed.deep_view()
            == crate::stream::spec_str_items(items, 0),
        _ => false,
    })
    &&& (match crate::json::spec_get(v, "tests_passed"@) {
        Some(JsonSpec::Num(raw)) => spec_num_u64(raw) == Some(o.tests_passed as nat),
        _ => false,
    })
    &&& (match crate::json::spec_get(v, "duration_secs"@) {
        Some(JsonSpec::Num(raw)) => spec_num_u64(raw) == Some(o.duration_secs as nat),
        _ => false,
    })
    &&& (match crate::json::spec_get(v, "num_turns"@) {
        Some(JsonSpec::Num(raw)) => o.num_turns matches Some(n) && spec_num_u64(raw) == Some(
            n as nat,
        ),
        None => o.num_turns is None,
        Some(JsonSpec::Null) => o.num_turns is None,
        _ => false,
    })
    &&& (match crate::json::spec_get(v, "total_cost_usd"@) {
        Some(JsonSpec::Num(raw)) => o.total_cost_micros matches Some(c) && spec_num_micros(raw)
            == Some(c as nat),
        None => o.total_cost_micros is None,
        Some(JsonSpec::Null) => o.total_cost_micros is None,
        _ => false,
    })
    &&& (match crate::json::spec_get(v, "permission_denial_count"@) {
        Some(JsonSpec::Num(raw)) => o.permission_denial_count matches Some(d) && spec_num_u64(
            raw,
        ) == Some(d as nat),
        None => o.permission_denial_count is None,
        Some(JsonSpec::Null) => o.permission_denial_count is None,
        _ => false,
    })
    &&& (match crate::json::spec_get(v, "permission_denials"@) {
        Some(JsonSpec::Arr(items)) => o.permission_denials matches Some(d) && d.deep_view()
            == crate::stream::spec_str_items(items, 0),
        None => o.permission_denials is None,
        Some(JsonSpec::Null) => o.permission_denials is None,
        _ => false,
    })
    &&& (match crate::json::spec_get(v, "steps"@) {
        Some(JsonSpec::Arr(items)) => o.steps matches Some(steps) && spec_steps_fields(
            items,
            steps@,
        ),
        Some(JsonSpec::Null) => o.steps is None,
        None => o.steps is None,
        _ => false,
    })
}

/// The document carries a whole record, well-typed.
pub open spec fn spec_outcome_readable(v: JsonSpec) -> bool {
    &&& (match crate::json::spec_get(v, "iteration"@) {
        Some(JsonSpec::Num(raw)) => spec_num_u64(raw) matches Some(n) && n <= u32::MAX,
        _ => false,
    })
    &&& (crate::json::spec_get(v, "cycle"@) matches Some(JsonSpec::Str(_)))
    &&& (crate::json::spec_get(v, "timestamp"@) matches Some(JsonSpec::Str(_)))
    &&& (crate::json::spec_get(v, "outcome"@) matches Some(JsonSpec::Str(_)))
    &&& (crate::json::spec_get(v, "files_changed"@) matches Some(JsonSpec::Arr(_)))
    &&& (match crate::json::spec_get(v, "tests_passed"@) {
        Some(JsonSpec::Num(raw)) => spec_num_u64(raw) matches Some(n) && n <= u32::MAX,
        _ => false,
    })
    &&& (match crate::json::spec_get(v, "duration_secs"@) {
        Some(JsonSpec::Num(raw)) => spec_num_u64(raw) is Some,
        _ => false,
    })
    &&& (match crate::json::spec_get(v, "num_turns"@) {
        Some(JsonSpec::Num(raw)) => spec_num_u64(raw) matches Some(n) && n <= u32::MAX,
        None => true,
        Some(JsonSpec::Null) => true,
        _ => false,
    })
    &&& (match crate::json::spec_get(v, "total_cost_usd"@) {
        Some(JsonSpec::Num(raw)) => spec_num_micros(raw) is Some,
        None => true,
        Some(JsonSpec::Null) => true,
        _ => false,
    })
    &&& (match crate::json::spec_get(v, "permission_denial_count"@) {
        Some(JsonSpec::Num(raw)) => spec_num_u64(raw) matches Some(n) && n <= u32::MAX,
        None => true,
        Some(JsonSpec::Null) => true,
        _ => false,
    })
    &&& (match crate::json::spec_get(v, "permission_denials"@) {
        Some(JsonSpec::Arr(_)) => true,
        None => true,
        Some(JsonSpec::Null) => true,
        _ => false,
    })
    &&& (match crate::json::spec_get(v, "steps"@) {
        Some(JsonSpec::Arr(items)) => spec_steps_readable(items),
        None => true,
        Some(JsonSpec::Null) => true,
        _ => false,
    })
}

/// Read a log record off a JSON document; unknown fields are ignored, a
/// present step breakdown is reconstructed.
#[verifier::rlimit(100)]
#[verifier::spinoff_prover]
pub fn outcome_of_json(v: &Json) -> (r: Option<CycleOutcome>)
    ensures
        r is Some <==> spec_outcome_readable(v@),
        match r {
            Some(o) => spec_outcome_fields(v@, o),
            None => true,
        },
{
    let fields = match v {
        Json::Obj(f) => Some(f),
        _ => None,
    };
    let fields = match fields {
        Some(f) => f,
        None => {
            return None;
        },
    };
    let iteration: u32 = match obj_get(fields, "iteration") {
        Some(Json::Num(raw)) => match num_u64(raw) {
            Some(n) => {
                if n > 0xffff_ffff {
                    return None;
                }
                n as u32
            },
            None => {
                return None;
            },
        },
        _ => {
            return None;
        },
    };
    let cycle: String = match obj_get(fields, "cycle") {
        Some(Json::Str(s)) => string_from_chars(&crate::stream::copy_chars_pub(s)),
        _ => {
            return None;
        },
    };
    let timestamp: String = match obj_get(fields, "timestamp") {
        Some(Json::Str(s)) => string_from_chars(&crate::stream::copy_chars_pub(s)),
        _ => {
            return None;
        },
    };
    let outcome: String = match obj_get(fields, "outcome") {
        Some(Json::Str(s)) => string_from_chars(&crate::stream::copy_chars_pub(s)),
        _ => {
            return None;
        },
    };
    let files_changed: Vec<String> = match obj_get(fields, "files_changed") {
        Some(Json::Arr(items)) => str_items_of(items),
        _ => {
            return None;
        },
    };
    let tests_passed: u32 = match obj_get(fields, "tests_passed") {
        Some(Json::Num(raw)) => match num_u64(raw) {
            Some(n) => {
                if n > 0xffff_ffff {
                    return None;
                }
                n as u32
            },
            None => {
                return None;
            },
        },
        _ => {
            return None;
        },
    };
    let duration_secs: u64 = match obj_get(fields, "duration_secs") {
        Some(Json::Num(raw)) => match num_u64(raw) {
            Some(n) => n,
            None => {
                return None;
            },
        },
        _ => {
            return None;
        },
    };
    let num_turns: Option<u32> = match obj_get(fields, "num_turns") {
        Some(Json::Num(raw)) => match num_u64(raw) {
            Some(n) => {
                if n > 0xffff_ffff {
                    return None;
                }
                Some(n as u32)
            },
            None => {
                return None;
            },
        },
        None => None,
        Some(Json::Null) => None,
        _ => {
            return None;
        },
    };
    let total_cost_micros: Option<u64> = match obj_get(fields, "total_cost_usd") {
        Some(Json::Num(raw)) => match num_micros(raw) {
            Some(n) => Some(n),
            None => {
                return None;
            },
        },
        None => None,
        Some(Json::Null) => None,
        _ => {
            return None;
        },
    };
    let permission_denial_count: Option<u32> = match obj_get(fields, "permission_denial_count") {
        Some(Json::Num(raw)) => match num_u64(raw) {
            Some(n) => {
                if n > 0xffff_ffff {
                    return None;
                }
                Some(n as u32)
            },
            None => {
                return None;
            },
        },
        None => None,
        Some(Json::Null) => None,
        _ => {
            return None;
        },
    };
    let permission_denials: Option<Vec<String>> = match obj_get(fields, "permission_denials") {
        Some(Json::Arr(items)) => Some(str_items_of(items)),
        None => None,
        Some(Json::Null) => None,
        _ => {
            return None;
        },
    };
    let steps: Option<Vec<StepOutcome>> = match obj_get(fields, "steps") {
        Some(Json::Arr(items)) => match steps_of_items(items) {
            Some(s) => Some(s),
            None => {
                return None;
            },
        },
        None => None,
        Some(Json::Null) => None,
        _ => {
            return None;
        },
    };
    Some(
        CycleOutcome {
            iteration,
            cycle,
            timestamp,
            outcome,
            files_changed,
            tests_passed,
            duration_secs,
            num_turns,
            total_cost_micros,
            permission_denial_count,
            permission_denials,
            steps,
        },
    )
}

/// The string elements of an array node.
fn str_items_of(items: &Vec<Json>) -> (r: Vec<String>)
    ensures
        r.deep_view() == crate::stream::spec_str_items(crate::json::view_items(items@, 0), 0),
{
    let ghost iv = crate::json::view_items(items@, 0);
    proof {
        crate::json::lemma_view_items_len(items@, 0);
    }
    let mut out: Vec<String> = Vec::new();
    let mut k: usize = 0;
    proof {
        assert(out.deep_view() =~~= Seq::<Seq<char>>::empty());
    }
    while k < items.len()
        invariant
            k <= items@.len(),
            iv == crate::json::view_items(items@, 0),
            iv.len() == items@.len(),
            out.deep_view() + crate::stream::spec_str_items(iv, k as int)
                == crate::stream::spec_str_items(iv, 0),
        decreases items@.len() - k,
    {
        let ghost pre = out.deep_view();
        proof {
            crate::json::lemma_view_items_index(items@, 0, k as int);
            assert(iv[k as int] == items@[k as int]@);
        }
        match &items[k] {
            Json::Str(s) => {
                out.push(string_from_chars(&crate::stream::copy_chars_pub(s)));
                proof {
                    assert(out.deep_view() =~~= pre.push(iv[k as int]->Str_0));
                    assert(pre.push(iv[k as int]->Str_0) + crate::stream::spec_str_items(
                        iv,
                        k + 1,
                    ) =~~= pre + (seq![iv[k as int]->Str_0] + crate::stream::spec_str_items(
                        iv,
                        k + 1,
                    )));
                }
            },
            _ => {},
        }
        k = k + 1;
    }
    proof {
        assert(crate::stream::spec_str_items(iv, iv.len() as int) =~~= Seq::<Seq<char>>::empty());
        assert(out.deep_view() =~~= out.deep_view() + crate::stream::spec_str_items(
            iv,
            iv.len() as int,
        ));
    }
    out
}

// --- text-level encoding ---

/// The one-line serialization of a log record.
pub open spec fn spec_outcome_line(o: CycleOutcome) -> Seq<char> {
    crate::json::spec_emit_spec(spec_outcome_json(o))
}

/// The append-only history log: the path of the log file and the record
/// codec. Opening, appending to and reading the file belong to the caller.
pub struct JsonlLogger {
    /// The log file's path: the log directory plus `log.jsonl`.
    pub log_path: String,
}

impl JsonlLogger {
    /// A logger for `<log_dir>/log.jsonl`.
    pub fn new(log_dir: &str) -> (r: JsonlLogger)
        ensures
            r.log_path@ == log_dir@ + "/log.jsonl"@,
    {
        let mut p: Vec<char> = Vec::new();
        crate::text::push_str(&mut p, log_dir);
        crate::text::push_str(&mut p, "/log.jsonl");
        JsonlLogger { log_path: string_from_chars(&p) }
    }

    /// The path of the log file.
    pub fn log_path(&self) -> (r: &String)
        ensures
            r == self.log_path,
    {
        &self.log_path
    }

    /// Serialize one record as one line, without the newline.
    pub fn encode_line(&self, o: &CycleOutcome) -> (r: String)
        ensures
            r@ == spec_outcome_line(*o),
    {
        let doc = outcome_to_json(o);
        let out = crate::json::emit_json(&doc);
        proof {
            crate::json::lemma_emit_spec(doc);
        }
        string_from_chars(&out)
    }

    /// Decode a whole log text: skip blank lines, read every other line as
    /// one record, and fail when any line does not hold one.
    pub fn decode_log(&self, content: &str) -> (r: Result<Vec<CycleOutcome>, String>)
        ensures
            match r {
                Ok(out) => {
                    let nb = spec_nonblank(crate::text::spec_lines(content@));
                    &&& out@.len() == nb.len()
                    &&& forall|j: int|
                        0 <= j < nb.len() ==> match crate::json::spec_parse_json(#[trigger] nb[j]) {
                            Some(v) => spec_outcome_readable(v) && spec_outcome_fields(
                                v,
                                out@[j],
                            ),
                            None => false,
                        }
                },
                Err(_) => exists|j: int|
                    0 <= j < spec_nonblank(crate::text::spec_lines(content@)).len() && match crate::json::spec_parse_json(
                        #[trigger] spec_nonblank(crate::text::spec_lines(content@))[j],
                    ) {
                        Some(v) => !spec_outcome_readable(v),
                        None => true,
                    },
            },
    {
        let chars = crate::text::chars_of(content);
        let lines = crate::text::split_lines(&chars);
        let ghost lv = lines.deep_view();
        proof {
            assert(lv == crate::text::spec_lines(content@));
            assert(spec_nonblank(lv.take(0)) =~~= Seq::<Seq<char>>::empty());
        }
        let mut out: Vec<CycleOutcome> = Vec::new();
        let mut k: usize = 0;
        while k < lines.len()
            invariant
                k <= lines@.len(),
                lv == lines.deep_view(),
                lv.len() == lines@.len(),
                out@.len() == spec_nonblank(lv.take(k as int)).len(),
                forall|j: int|
                    0 <= j < out@.len() ==> match crate::json::spec_parse_json(
                        #[trigger] spec_nonblank(lv.take(k as int))[j],
                    ) {
                        Some(v) => spec_outcome_readable(v) && spec_outcome_fields(v, out@[j]),
                        None => false,
                    },
            decreases lines@.len() - k,
        {
            let ghost pre_nb = spec_nonblank(lv.take(k as int));
            proof {
                assert(lv[k as int] == lines@[k as int]@);
                assert(lv.take(k + 1).drop_last() =~= lv.take(k as int));
                assert(lv.take(k + 1).last() == lv[k as int]);
            }
            let (lo, hi) = crate::text::trim_range(&lines[k]);
            if lo < hi {
                proof {
                    assert(!crate::text::spec_is_blank(lv[k as int]));
                    assert(spec_nonblank(lv.take(k + 1)) =~~= pre_nb.push(lv[k as int]));
                }
                match crate::json::parse_json(&lines[k]) {
                    Some(doc) => match outcome_of_json(&doc) {
                        Some(o) => {
                            out.push(o);
                        },
                        None => {
                            proof {
                                lemma_nonblank_prefix(lv, k + 1);
                                assert(spec_nonblank(lv)[pre_nb.len() as int] == lv[k as int]);
                            }
                            return Err("a log line lacks a required field".to_owned());
                        },
                    },
                    None => {
                        proof {
                            lemma_nonblank_prefix(lv, k + 1);
                            assert(spec_nonblank(lv)[pre_nb.len() as int] == lv[k as int]);
                        }
                        return Err("a log line does not parse as JSON".to_owned());
                    },
                }
            } else {
                proof {
                    assert(crate::text::spec_is_blank(lv[k as int]));
                    assert(spec_nonblank(lv.take(k + 1)) =~~= pre_nb);
                }
            }
            k = k + 1;
        }
        proof {
            assert(lv.take(lv.len() as int) =~= lv);
        }
        Ok(out)
    }
}

/// The progress snapshot file: its path and the snapshot codec. Writing,
/// reading and deleting the file belong to the caller.
pub struct ProgressWriter {
    /// The snapshot file's path: the log directory plus `progress.json`.
    pub path: String,
}

impl ProgressWriter {
    /// A writer for `<log_dir>/progress.json`.
    pub fn new(log_dir: &str) -> (r: ProgressWriter)
        ensures
            r.path@ == log_dir@ + "/progress.json"@,
    {
        let mut p: Vec<char> = Vec::new();
        crate::text::push_str(&mut p, log_dir);
        crate::text::push_str(&mut p, "/progress.json");
        ProgressWriter { path: string_from_chars(&p) }
    }

    /// Serialize a snapshot, one field per line.
    pub fn encode(&self, p: &RunProgress) -> (r: String)
        ensures
            r@ == crate::json::spec_emit_pretty(spec_progress_json(*p)),
    {
        let doc = progress_to_json(p);
        let out = crate::json::emit_json_pretty(&doc);
        string_from_chars(&out)
    }

    /// Read a snapshot back from the file's text.
    pub fn decode(&self, content: &str) -> (r: Option<RunProgress>)
        ensures
            match crate::json::spec_parse_json(content@) {
                Some(v) => (r is Some <==> spec_progress_readable(v)) && (match r {
                    Some(p) => spec_progress_fields(v, p),
                    None => true,
                }),
                None => r is None,
            },
    {
        let chars = crate::text::chars_of(content);
        match crate::json::parse_json(&chars) {
            Some(doc) => progress_of_json(&doc),
            None => None,
        }
    }
}

/// The non-blank lines, in order.
pub open spec fn spec_nonblank(lines: Seq<Seq<char>>) -> Seq<Seq<char>>
    decreases lines.len(),
{
    if lines.len() == 0 {
        Seq::empty()
    } else if crate::text::spec_is_blank(lines.last()) {
        spec_nonblank(lines.drop_last())
    } else {
        spec_nonblank(lines.drop_last()).push(lines.last())
    }
}

/// A prefix's non-blank lines prefix the whole's.
proof fn lemma_nonblank_prefix(lines: Seq<Seq<char>>, k: int)
    requires
        0 <= k <= lines.len(),
    ensures
        spec_nonblank(lines.take(k)).len() <= spec_nonblank(lines).len(),
        forall|j: int|
            0 <= j < spec_nonblank(lines.take(k)).len() ==> #[trigger] spec_nonblank(lines)[j]
                == spec_nonblank(lines.take(k))[j],
    decreases lines.len() - k,
{
    if k < lines.len() {
        lemma_nonblank_prefix(lines, k + 1);
        assert(lines.take(k + 1).drop_last() =~= lines.take(k));
        assert(lines.take(k + 1).last() == lines[k]);
    } else {
        assert(lines.take(k) =~= lines);
    }
}

/// Mapping strings into string nodes and reading the string elements back
/// is the identity.
proof fn lemma_jstrs_roundtrip(items: Seq<Seq<char>>)
    ensures
        crate::stream::spec_str_items(
            items.map_values(|s: Seq<char>| JsonSpec::Str(s)),
            0,
        ) == items,
{
    lemma_jstrs_roundtrip_from(items, 0);
    assert(items.skip(0) =~= items);
}

proof fn lemma_jstrs_roundtrip_from(items: Seq<Seq<char>>, k: int)
    requires
        0 <= k <= items.len(),
    ensures
        crate::stream::spec_str_items(
            items.map_values(|s: Seq<char>| JsonSpec::Str(s)),
            k,
        ) == items.skip(k),
    decreases items.len() - k,
{
    let mapped = items.map_values(|s: Seq<char>| JsonSpec::Str(s));
    if k < items.len() {
        lemma_jstrs_roundtrip_from(items, k + 1);
        assert(crate::stream::spec_str_items(mapped, k) =~= seq![items[k]] + items.skip(k + 1));
        assert(seq![items[k]] + items.skip(k + 1) =~= items.skip(k));
    } else {
        assert(items.skip(k) =~= Seq::<Seq<char>>::empty());
        assert(crate::stream::spec_str_items(mapped, k) =~= Seq::<Seq<char>>::empty());
    }
}

/// Each field of the written record looks up to what was written.
#[verifier::rlimit(100)]
#[verifier::spinoff_prover]
proof fn lemma_outcome_json_lookups(o: CycleOutcome)
    ensures
        crate::json::spec_get(spec_outcome_json(o), "iteration"@) == Some(
            spec_jnum(o.iteration as nat),
        ),
        crate::json::spec_get(spec_outcome_json(o), "cycle"@) == Some(JsonSpec::Str(o.cycle@)),
        crate::json::spec_get(spec_outcome_json(o), "timestamp"@) == Some(
            JsonSpec::Str(o.timestamp@),
        ),
        crate::json::spec_get(spec_outcome_json(o), "outcome"@) == Some(
            JsonSpec::Str(o.outcome@),
        ),
        crate::json::spec_get(spec_outcome_json(o), "files_changed"@) == Some(
            spec_jstrs(o.files_changed.deep_view()),
        ),
        crate::json::spec_get(spec_outcome_json(o), "tests_passed"@) == Some(
            spec_jnum(o.tests_passed as nat),
        ),
        crate::json::spec_get(spec_outcome_json(o), "duration_secs"@) == Some(
            spec_jnum(o.duration_secs as nat),
        ),
        crate::json::spec_get(spec_outcome_json(o), "num_turns"@) == (match o.num_turns {
            Some(n) => Some(spec_jnum(n as nat)),
            None => None,
        }),
        crate::json::spec_get(spec_outcome_json(o), "total_cost_usd"@) == (
        match o.total_cost_micros {
            Some(c) => Some(spec_jmicros(c)),
            None => None,
        }),
        crate::json::spec_get(spec_outcome_json(o), "permission_denial_count"@) == (
        match o.permission_denial_count {
            Some(d) => Some(spec_jnum(d as nat)),
            None => None,
        }),
        crate::json::spec_get(spec_outcome_json(o), "permission_denials"@) == (
        match o.permission_denials {
            Some(d) => Some(spec_jstrs(d.deep_view())),
            None => None,
        }),
        crate::json::spec_get(spec_outcome_json(o), "steps"@) == (match o.steps {
            Some(s) => Some(spec_steps_json(s@)),
            None => None,
        }),
{
    reveal_strlit("iteration");
    reveal_strlit("cycle");
    reveal_strlit("timestamp");
    reveal_strlit("outcome");
    reveal_strlit("files_changed");
    reveal_strlit("tests_passed");
    reveal_strlit("duration_secs");
    reveal_strlit("num_turns");
    reveal_strlit("total_cost_usd");
    reveal_strlit("permission_denial_count");
    reveal_strlit("permission_denials");
    reveal_strlit("steps");
    assert("iteration"@.len() == 9);
    assert("cycle"@.len() == 5);
    assert("timestamp"@.len() == 9);
    assert("outcome"@.len() == 7);
    assert("files_changed"@.len() == 13);
    assert("tests_passed"@.len() == 12);
    assert("duration_secs"@.len() == 13);
    assert("num_turns"@.len() == 9);
    assert("total_cost_usd"@.len() == 14);
    assert("permission_denial_count"@.len() == 23);
    assert("permission_denials"@.len() == 18);
    assert("steps"@.len() == 5);
    assert("iteration"@[0] == 'i');
    assert("timestamp"@[0] == 't');
    assert("num_turns"@[0] == 'n');
    assert("cycle"@[0] == 'c');
    assert("steps"@[0] == 's');
    assert("files_changed"@[0] == 'f');
    assert("duration_secs"@[0] == 'd');
    let base = seq![
        ("iteration"@, spec_jnum(o.iteration as nat)),
        ("cycle"@, JsonSpec::Str(o.cycle@)),
        ("timestamp"@, JsonSpec::Str(o.timestamp@)),
        ("outcome"@, JsonSpec::Str(o.outcome@)),
        ("files_changed"@, spec_jstrs(o.files_changed.deep_view())),
        ("tests_passed"@, spec_jnum(o.tests_passed as nat)),
        ("duration_secs"@, spec_jnum(o.duration_secs as nat)),
    ];
    let w = base + (match o.num_turns {
        Some(n) => seq![("num_turns"@, spec_jnum(n as nat))],
        None => Seq::empty(),
    }) + (match o.total_cost_micros {
        Some(c) => seq![("total_cost_usd"@, spec_jmicros(c))],
        None => Seq::empty(),
    }) + (match o.permission_denial_count {
        Some(d) => seq![("permission_denial_count"@, spec_jnum(d as nat))],
        None => Seq::empty(),
    }) + (match o.permission_denials {
        Some(d) => seq![("permission_denials"@, spec_jstrs(d.deep_view()))],
        None => Seq::empty(),
    }) + (match o.steps {
        Some(s) => seq![("steps"@, spec_steps_json(s@))],
        None => Seq::empty(),
    });
    assert(spec_outcome_json(o) == JsonSpec::Obj(w)) by {
        assert(w =~= match spec_outcome_json(o) {
            JsonSpec::Obj(f) => f,
            _ => Seq::empty(),
        });
    }
    assert forall|i: int, j: int| 0 <= i < j < w.len() implies (#[trigger] w[j]).0 != (
    #[trigger] w[i]).0 by {
        assert(w[i].0.len() != w[j].0.len() || w[i].0[0] != w[j].0[0] || i == j);
    }
    assert forall|i: int| 0 <= i < w.len() implies spec_obj_lookup(w, (#[trigger] w[i]).0)
        == Some(w[i].1) by {
        lemma_lookup_at(w, i);
    }
    assert forall|key: Seq<char>|
        (forall|j: int| 0 <= j < w.len() ==> (#[trigger] w[j]).0 != key) implies #[trigger] spec_obj_lookup(
        w,
        key,
    ) is None by {
        lemma_lookup_absent(w, key);
    }
    if o.num_turns is None {
        assert forall|j: int| 0 <= j < w.len() implies (#[trigger] w[j]).0 != "num_turns"@ by {
            assert(w[j].0.len() != 9 || w[j].0[0] != 'n');
        }
    }
    if o.total_cost_micros is None {
        assert forall|j: int| 0 <= j < w.len() implies (#[trigger] w[j]).0
            != "total_cost_usd"@ by {
            assert(w[j].0.len() != 14);
        }
    }
    if o.permission_denial_count is None {
        assert forall|j: int| 0 <= j < w.len() implies (#[trigger] w[j]).0
            != "permission_denial_count"@ by {
            assert(w[j].0.len() != 23);
        }
    }
    if o.permission_denials is None {
        assert forall|j: int| 0 <= j < w.len() implies (#[trigger] w[j]).0
            != "permission_denials"@ by {
            assert(w[j].0.len() != 18);
        }
    }
    if o.steps is None {
        assert forall|j: int| 0 <= j < w.len() implies (#[trigger] w[j]).0 != "steps"@ by {
            assert(w[j].0.len() != 5 || w[j].0[0] != 's');
        }
    }
}

/// Each field of a written step looks up to what was written.
#[verifier::rlimit(100)]
#[verifier::spinoff_prover]
proof fn lemma_step_json_lookups(s: StepOutcome)
    ensures
        crate::json::spec_get(spec_step_json(s), "name"@) == Some(JsonSpec::Str(s.name@)),
        crate::json::spec_get(spec_step_json(s), "session"@) == (match s.session {
            Some(t) => Some(JsonSpec::Str(t@)),
            None => None,
        }),
        crate::json::spec_get(spec_step_json(s), "duration_secs"@) == Some(
            spec_jnum(s.duration_secs as nat),
        ),
        crate::json::spec_get(spec_step_json(s), "num_turns"@) == (match s.num_turns {
            Some(n) => Some(spec_jnum(n as nat)),
            None => None,
        }),
        crate::json::spec_get(spec_step_json(s), "cost_usd"@) == (match s.cost_micros {
            Some(c) => Some(spec_jmicros(c)),
            None => None,
        }),
{
    reveal_strlit("name");
    reveal_strlit("session");
    reveal_strlit("duration_secs");
    reveal_strlit("num_turns");
    reveal_strlit("cost_usd");
    assert("name"@.len() == 4);
    assert("session"@.len() == 7);
    assert("duration_secs"@.len() == 13);
    assert("num_turns"@.len() == 9);
    assert("cost_usd"@.len() == 8);
    let w = seq![("name"@, JsonSpec::Str(s.name@))] + (match s.session {
        Some(t) => seq![("session"@, JsonSpec::Str(t@))],
        None => Seq::empty(),
    }) + seq![("duration_secs"@, spec_jnum(s.duration_secs as nat))] + (match s.num_turns {
        Some(n) => seq![("num_turns"@, spec_jnum(n as nat))],
        None => Seq::empty(),
    }) + (match s.cost_micros {
        Some(c) => seq![("cost_usd"@, spec_jmicros(c))],
        None => Seq::empty(),
    });
    assert(spec_step_json(s) == JsonSpec::Obj(w)) by {
        assert(w =~= match spec_step_json(s) {
            JsonSpec::Obj(f) => f,
            _ => Seq::empty(),
        });
    }
    let off_s: int = if s.session is Some {
        1
    } else {
        0
    };
    let off_n: int = if s.num_turns is Some {
        1
    } else {
        0
    };
    assert(w[0] == ("name"@, JsonSpec::Str(s.name@)));
    match s.session {
        Some(tag) => {
            assert(w[1] == ("session"@, JsonSpec::Str(tag@)));
        },
        None => {},
    }
    assert(w[1 + off_s] == ("duration_secs"@, spec_jnum(s.duration_secs as nat)));
    match s.num_turns {
        Some(n) => {
            assert(w[2 + off_s] == ("num_turns"@, spec_jnum(n as nat)));
        },
        None => {},
    }
    match s.cost_micros {
        Some(c) => {
            assert(w[2 + off_s + off_n] == ("cost_usd"@, spec_jmicros(c)));
        },
        None => {},
    }
    assert forall|i: int, j: int| 0 <= i < j < w.len() implies (#[trigger] w[j]).0 != (
    #[trigger] w[i]).0 by {
        assert(w[i].0.len() != w[j].0.len() || i == j);
    }
    assert forall|i: int| 0 <= i < w.len() implies spec_obj_lookup(w, (#[trigger] w[i]).0)
        == Some(w[i].1) by {
        lemma_lookup_at(w, i);
    }
    if s.session is None {
        assert forall|j: int| 0 <= j < w.len() implies (#[trigger] w[j]).0 != "session"@ by {
            assert(w[j].0.len() != 7);
        }
        lemma_lookup_absent(w, "session"@);
    }
    if s.num_turns is None {
        assert forall|j: int| 0 <= j < w.len() implies (#[trigger] w[j]).0 != "num_turns"@ by {
            assert(w[j].0.len() != 9);
        }
        lemma_lookup_absent(w, "num_turns"@);
    }
    if s.cost_micros is None {
        assert forall|j: int| 0 <= j < w.len() implies (#[trigger] w[j]).0 != "cost_usd"@ by {
            assert(w[j].0.len() != 8);
        }
        lemma_lookup_absent(w, "cost_usd"@);
    }
}

/// A written step document is readable, and whatever it denotes carries
/// the written step's contents.
proof fn lemma_step_round_trip(s: StepOutcome)
    ensures
        spec_step_readable(spec_step_json(s)),
        forall|q: StepOutcome|
            #[trigger] spec_step_fields(spec_step_json(s), q) ==> q.name@ == s.name@
                && q.duration_secs == s.duration_secs && q.num_turns == s.num_turns
                && q.cost_micros == s.cost_micros && (match (s.session, q.session) {
                (Some(a), Some(b)) => a@ == b@,
                (None, None) => true,
                _ => false,
            }),
{
    lemma_step_json_lookups(s);
    crate::text::lemma_format_nat_val(s.duration_secs as nat);
    match s.num_turns {
        Some(n) => {
            crate::text::lemma_format_nat_val(n as nat);
        },
        None => {},
    }
    match s.cost_micros {
        Some(c) => {
            crate::json::lemma_micros_roundtrip(c);
        },
        None => {},
    }
}

/// The fields a step list's read-back must carry, pointwise.
pub open spec fn spec_steps_match(a: Seq<StepOutcome>, b: Seq<StepOutcome>) -> bool {
    b.len() == a.len() && forall|j: int|
        0 <= j < a.len() ==> (#[trigger] b[j]).name@ == a[j].name@ && b[j].duration_secs
            == a[j].duration_secs && b[j].num_turns == a[j].num_turns && b[j].cost_micros
            == a[j].cost_micros && (match (a[j].session, b[j].session) {
            (Some(x), Some(y)) => x@ == y@,
            (None, None) => true,
            _ => false,
        })
}

/// A written step list is readable.
proof fn lemma_steps_readable_written(steps: Seq<StepOutcome>)
    ensures
        spec_steps_readable(steps.map_values(|s: StepOutcome| spec_step_json(s))),
{
    let mapped = steps.map_values(|s: StepOutcome| spec_step_json(s));
    assert forall|j: int| 0 <= j < mapped.len() implies spec_step_readable(
        #[trigger] mapped[j],
    ) by {
        lemma_step_round_trip(steps[j]);
    }
}

/// Whatever a written step list denotes matches the written steps
/// pointwise.
proof fn lemma_steps_fields_match(steps: Seq<StepOutcome>, qs: Seq<StepOutcome>)
    requires
        spec_steps_fields(steps.map_values(|s: StepOutcome| spec_step_json(s)), qs),
    ensures
        spec_steps_match(steps, qs),
{
    let mapped = steps.map_values(|s: StepOutcome| spec_step_json(s));
    assert forall|j: int| 0 <= j < steps.len() implies (#[trigger] qs[j]).name@
        == steps[j].name@ && qs[j].duration_secs == steps[j].duration_secs && qs[j].num_turns
        == steps[j].num_turns && qs[j].cost_micros == steps[j].cost_micros && (
    match (steps[j].session, qs[j].session) {
        (Some(x), Some(y)) => x@ == y@,
        (None, None) => true,
        _ => false,
    }) by {
        lemma_step_round_trip(steps[j]);
        assert(spec_step_fields(mapped[j], qs[j]));
    }
}

/// The history-log record round trip: a record written to its JSON
/// document and read back comes out with the same contents, step breakdown
/// included — and its absent optional fields come back absent, never as
/// null or zero.
pub proof fn lemma_outcome_round_trip(o: CycleOutcome, q: CycleOutcome)
    requires
        spec_outcome_fields(spec_outcome_json(o), q),
    ensures
        q.iteration == o.iteration,
        q.cycle@ == o.cycle@,
        q.timestamp@ == o.timestamp@,
        q.outcome@ == o.outcome@,
        q.files_changed.deep_view() == o.files_changed.deep_view(),
        q.tests_passed == o.tests_passed,
        q.duration_secs == o.duration_secs,
        q.num_turns == o.num_turns,
        q.total_cost_micros == o.total_cost_micros,
        q.permission_denial_count == o.permission_denial_count,
        match (o.permission_denials, q.permission_denials) {
            (Some(a), Some(b)) => a.deep_view() == b.deep_view(),
            (None, None) => true,
            _ => false,
        },
        match (o.steps, q.steps) {
            (Some(a), Some(b)) => spec_steps_match(a@, b@),
            (None, None) => true,
            _ => false,
        },
{
    lemma_outcome_json_lookups(o);
    crate::text::lemma_format_nat_val(o.iteration as nat);
    crate::text::lemma_format_nat_val(o.tests_passed as nat);
    crate::text::lemma_format_nat_val(o.duration_secs as nat);
    lemma_jstrs_roundtrip(o.files_changed.deep_view());
    match o.num_turns {
        Some(n) => {
            crate::text::lemma_format_nat_val(n as nat);
        },
        None => {},
    }
    match o.total_cost_micros {
        Some(c) => {
            crate::json::lemma_micros_roundtrip(c);
        },
        None => {},
    }
    match o.permission_denial_count {
        Some(d) => {
            crate::text::lemma_format_nat_val(d as nat);
        },
        None => {},
    }
    match o.permission_denials {
        Some(d) => {
            lemma_jstrs_roundtrip(d.deep_view());
        },
        None => {},
    }
    match o.steps {
        Some(steps) => {
            match q.steps {
                Some(qs) => {
                    lemma_steps_fields_match(steps@, qs@);
                },
                None => {},
            }
        },
        None => {},
    }
}

/// And the written record is always readable.
pub proof fn lemma_outcome_json_readable(o: CycleOutcome)
    ensures
        spec_outcome_readable(spec_outcome_json(o)),
{
    lemma_outcome_json_lookups(o);
    crate::text::lemma_format_nat_val(o.iteration as nat);
    crate::text::lemma_format_nat_val(o.tests_passed as nat);
    crate::text::lemma_format_nat_val(o.duration_secs as nat);
    match o.num_turns {
        Some(n) => {
            crate::text::lemma_format_nat_val(n as nat);
        },
        None => {},
    }
    match o.total_cost_micros {
        Some(c) => {
            crate::json::lemma_micros_roundtrip(c);
        },
        None => {},
    }
    match o.permission_denial_count {
        Some(d) => {
            crate::text::lemma_format_nat_val(d as nat);
        },
        None => {},
    }
    match o.steps {
        Some(steps) => {
            lemma_steps_readable_written(steps@);
        },
        None => {},
    }
}

// --- the emitted documents parse back: the text-level round trips ---

/// A number node written by the integer formatter can be read back.
proof fn lemma_jnum_shape(n: nat)
    ensures
        spec_writable(spec_jnum(n)),
        spec_doc_depth(spec_jnum(n)) == 0,
{
    assert(spec_format_nat(n) == spec_format_nat(n));
}

/// A number node written by the dollar formatter can be read back.
proof fn lemma_jmicros_shape(m: u64)
    ensures
        spec_writable(spec_jmicros(m)),
        spec_doc_depth(spec_jmicros(m)) == 0,
{
    assert(spec_format_micros(m as nat) == spec_format_micros(m as nat));
}

/// A string-array node nests one level and can be read back.
proof fn lemma_jstrs_shape(items: Seq<Seq<char>>)
    ensures
        spec_writable(spec_jstrs(items)),
        spec_doc_depth(spec_jstrs(items)) <= 1,
{
    let mapped = items.map_values(|s: Seq<char>| JsonSpec::Str(s));
    assert forall|x: int| 0 <= x < mapped.len() implies spec_writable(#[trigger] mapped[x])
        && spec_doc_depth(mapped[x]) <= 0 by {
        assert(mapped[x] == JsonSpec::Str(items[x]));
    }
    lemma_items_depth_le(mapped, 0, 0);
}

/// Concatenating field runs keeps writability and the depth bound.
proof fn lemma_fields_shape_concat(
    a: Seq<(Seq<char>, JsonSpec)>,
    b: Seq<(Seq<char>, JsonSpec)>,
    d: nat,
)
    requires
        forall|k: int|
            0 <= k < a.len() ==> spec_writable((#[trigger] a[k]).1) && spec_doc_depth(a[k].1) <= d,
        forall|k: int|
            0 <= k < b.len() ==> spec_writable((#[trigger] b[k]).1) && spec_doc_depth(b[k].1) <= d,
    ensures
        forall|k: int|
            0 <= k < (a + b).len() ==> spec_writable((#[trigger] (a + b)[k]).1) && spec_doc_depth(
                (a + b)[k].1,
            ) <= d,
{
    assert forall|k: int| 0 <= k < (a + b).len() implies spec_writable((#[trigger] (a + b)[k]).1)
        && spec_doc_depth((a + b)[k].1) <= d by {
        if k < a.len() {
            assert((a + b)[k] == a[k]);
        } else {
            assert((a + b)[k] == b[k - a.len()]);
        }
    }
}

/// A step record's document nests one level and can be read back.
proof fn lemma_step_doc_shape(s: StepOutcome)
    ensures
        spec_writable(spec_step_json(s)),
        spec_doc_depth(spec_step_json(s)) <= 1,
{
    let p1 = seq![("name"@, JsonSpec::Str(s.name@))];
    let p2: Seq<(Seq<char>, JsonSpec)> = match s.session {
        Some(t) => seq![("session"@, JsonSpec::Str(t@))],
        None => Seq::empty(),
    };
    let p3 = seq![("duration_secs"@, spec_jnum(s.duration_secs as nat))];
    let p4: Seq<(Seq<char>, JsonSpec)> = match s.num_turns {
        Some(n) => seq![("num_turns"@, spec_jnum(n as nat))],
        None => Seq::empty(),
    };
    let p5: Seq<(Seq<char>, JsonSpec)> = match s.cost_micros {
        Some(c) => seq![("cost_usd"@, spec_jmicros(c))],
        None => Seq::empty(),
    };
    lemma_jnum_shape(s.duration_secs as nat);
    match s.num_turns {
        Some(n) => {
            lemma_jnum_shape(n as nat);
        },
        None => {},
    }
    match s.cost_micros {
        Some(c) => {
            lemma_jmicros_shape(c);
        },
        None => {},
    }
    lemma_fields_shape_concat(p1, p2, 0);
    lemma_fields_shape_concat(p1 + p2, p3, 0);
    lemma_fields_shape_concat(p1 + p2 + p3, p4, 0);
    lemma_fields_shape_concat(p1 + p2 + p3 + p4, p5, 0);
    let fields = p1 + p2 + p3 + p4 + p5;
    assert(spec_step_json(s) == JsonSpec::Obj(fields));
    lemma_fields_depth_le(fields, 0, 0);
}

/// The step list's document nests two levels and can be read back.
proof fn lemma_steps_doc_shape(steps: Seq<StepOutcome>)
    ensures
        spec_writable(spec_steps_json(steps)),
        spec_doc_depth(spec_steps_json(steps)) <= 2,
{
    let mapped = steps.map_values(|s: StepOutcome| spec_step_json(s));
    assert forall|x: int| 0 <= x < mapped.len() implies spec_writable(#[trigger] mapped[x])
        && spec_doc_depth(mapped[x]) <= 1 by {
        assert(mapped[x] == spec_step_json(steps[x]));
        lemma_step_doc_shape(steps[x]);
    }
    lemma_items_depth_le(mapped, 0, 1);
}

/// A log record's document nests three levels and can be read back.
proof fn lemma_outcome_doc_shape(o: CycleOutcome)
    ensures
        spec_writable(spec_outcome_json(o)),
        spec_doc_depth(spec_outcome_json(o)) <= 3,
{
    let p1 = seq![
        ("iteration"@, spec_jnum(o.iteration as nat)),
        ("cycle"@, JsonSpec::Str(o.cycle@)),
        ("timestamp"@, JsonSpec::Str(o.timestamp@)),
        ("outcome"@, JsonSpec::Str(o.outcome@)),
        ("files_changed"@, spec_jstrs(o.files_changed.deep_view())),
        ("tests_passed"@, spec_jnum(o.tests_passed as nat)),
        ("duration_secs"@, spec_jnum(o.duration_secs as nat)),
    ];
    let p2: Seq<(Seq<char>, JsonSpec)> = match o.num_turns {
        Some(n) => seq![("num_turns"@, spec_jnum(n as nat))],
        None => Seq::empty(),
    };
    let p3: Seq<(Seq<char>, JsonSpec)> = match o.total_cost_micros {
        Some(c) => seq![("total_cost_usd"@, spec_jmicros(c))],
        None => Seq::empty(),
    };
    let p4: Seq<(Seq<char>, JsonSpec)> = match o.permission_denial_count {
        Some(d) => seq![("permission_denial_count"@, spec_jnum(d as nat))],
        None => Seq::empty(),
    };
    let p5: Seq<(Seq<char>, JsonSpec)> = match o.permission_denials {
        Some(d) => seq![("permission_denials"@, spec_jstrs(d.deep_view()))],
        None => Seq::empty(),
    };
    let p6: Seq<(Seq<char>, JsonSpec)> = match o.steps {
        Some(s) => seq![("steps"@, spec_steps_json(s@))],
        None => Seq::empty(),
    };
    lemma_jnum_shape(o.iteration as nat);
    lemma_jnum_shape(o.tests_passed as nat);
    lemma_jnum_shape(o.duration_secs as nat);
    lemma_jstrs_shape(o.files_changed.deep_view());
    match o.num_turns {
        Some(n) => {
            lemma_jnum_shape(n as nat);
        },
        None => {},
    }
    match o.total_cost_micros {
        Some(c) => {
            lemma_jmicros_shape(c);
        },
        None => {},
    }
    match o.permission_denial_count {
        Some(d) => {
            lemma_jnum_shape(d as nat);
        },
        None => {},
    }
    match o.permission_denials {
        Some(d) => {
            lemma_jstrs_shape(d.deep_view());
        },
        None => {},
    }
    match o.steps {
        Some(s) => {
            lemma_steps_doc_shape(s@);
        },
        None => {},
    }
    assert forall|k: int| 0 <= k < p1.len() implies spec_writable((#[trigger] p1[k]).1)
        && spec_doc_depth(p1[k].1) <= 2 by {}
    lemma_fields_shape_concat(p1, p2, 2);
    lemma_fields_shape_concat(p1 + p2, p3, 2);
    lemma_fields_shape_concat(p1 + p2 + p3, p4, 2);
    lemma_fields_shape_concat(p1 + p2 + p3 + p4, p5, 2);
    lemma_fields_shape_concat(p1 + p2 + p3 + p4 + p5, p6, 2);
    let fields = p1 + p2 + p3 + p4 + p5 + p6;
    assert(spec_outcome_json(o) == JsonSpec::Obj(fields));
    lemma_fields_depth_le(fields, 0, 2);
}

/// The text-level log round trip: the line the logger writes for a record
/// parses back to exactly the record's document. With the readability and
/// field laws above, a log file assembled from `encode_line`'s lines
/// decodes record for record through `decode_log`.
pub proof fn lemma_outcome_line_parses(o: CycleOutcome)
    requires
        spec_outcome_line(o).len() < MAX_TEXT_LEN,
    ensures
        spec_parse_json(spec_outcome_line(o)) == Some(spec_outcome_json(o)),
{
    lemma_outcome_doc_shape(o);
    lemma_parse_emitted(spec_outcome_json(o));
}

/// A progress snapshot's document nests two levels and can be read back.
proof fn lemma_progress_doc_shape(p: RunProgress)
    ensures
        spec_writable(spec_progress_json(p)),
        spec_doc_depth(spec_progress_json(p)) <= 2,
        spec_progress_json(p) is Obj,
{
    let counts = spec_counts_json(view_pairs_u32(p.cycles_executed@));
    let mapped = view_pairs_u32(p.cycles_executed@).map_values(
        |q: (Seq<char>, u32)| (q.0, spec_jnum(q.1 as nat)),
    );
    assert forall|x: int| 0 <= x < mapped.len() implies spec_writable((#[trigger] mapped[x]).1)
        && spec_doc_depth(mapped[x].1) <= 0 by {
        assert(mapped[x] == (view_pairs_u32(p.cycles_executed@)[x].0, spec_jnum(
            view_pairs_u32(p.cycles_executed@)[x].1 as nat,
        )));
        lemma_jnum_shape(view_pairs_u32(p.cycles_executed@)[x].1 as nat);
    }
    lemma_fields_depth_le(mapped, 0, 0);
    assert(spec_writable(counts) && spec_doc_depth(counts) <= 1);
    let p1 = seq![
        ("started_at"@, JsonSpec::Str(p.started_at@)),
        ("current_iteration"@, spec_jnum(p.current_iteration as nat)),
        ("max_iterations"@, spec_jnum(p.max_iterations as nat)),
        ("current_cycle"@, JsonSpec::Str(p.current_cycle@)),
        ("current_status"@, JsonSpec::Str(spec_status_text(p.current_status))),
        ("cycles_executed"@, counts),
        ("total_duration_secs"@, spec_jnum(p.total_duration_secs as nat)),
        ("total_cost_usd"@, spec_jmicros(p.total_cost_micros)),
    ];
    let p2: Seq<(Seq<char>, JsonSpec)> = match p.last_outcome {
        Some(t) => seq![("last_outcome"@, JsonSpec::Str(t@))],
        None => Seq::empty(),
    };
    lemma_jnum_shape(p.current_iteration as nat);
    lemma_jnum_shape(p.max_iterations as nat);
    lemma_jnum_shape(p.total_duration_secs as nat);
    lemma_jmicros_shape(p.total_cost_micros);
    assert forall|k: int| 0 <= k < p1.len() implies spec_writable((#[trigger] p1[k]).1)
        && spec_doc_depth(p1[k].1) <= 1 by {}
    lemma_fields_shape_concat(p1, p2, 1);
    let fields = p1 + p2;
    assert(spec_progress_json(p) == JsonSpec::Obj(fields));
    lemma_fields_depth_le(fields, 0, 1);
}

/// The text-level snapshot round trip: the text the writer emits for a
/// snapshot parses back to exactly the snapshot's document. With the
/// readability and field laws above, the snapshot file `encode` writes
/// reads back through `decode`.
pub proof fn lemma_progress_text_parses(p: RunProgress)
    requires
        spec_emit_pretty(spec_progress_json(p)).len() < MAX_TEXT_LEN,
    ensures
        spec_parse_json(spec_emit_pretty(spec_progress_json(p))) == Some(spec_progress_json(p)),
{
    lemma_progress_doc_shape(p);
    let fields = choose|f: Seq<(Seq<char>, JsonSpec)>| spec_progress_json(p) == JsonSpec::Obj(f);
    assert(spec_progress_json(p) == JsonSpec::Obj(fields));
    lemma_parse_emitted_pretty(fields);
}

} // verus!
