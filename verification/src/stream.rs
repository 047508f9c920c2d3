//! Events parsed from the agent's stream output, and their accumulator.
//!
//! The agent emits one JSON object per line. `parse_event` turns a line into
//! at most one `StreamEvent`; `StreamAccumulator` folds a stream of events
//! into the per-execution summary.

use vstd::prelude::*;

use crate::json::{
    spec_get, spec_num_micros, spec_num_u64, spec_parse_json, Json, JsonSpec, obj_get, num_micros,
    num_u64, parse_json, view_items, lemma_view_items_index, lemma_view_items_len,
};
use crate::text::{
    spec_all_digits, spec_contains_seq, spec_dedup_first, spec_digits_val, spec_distinct,
    spec_find_at, spec_is_digit, spec_match_at, spec_starts_with, chars_of, eq_chars, find_seq,
    is_digit, lemma_dedup_first_props, lemma_find_at_first, match_at, slice_range,
    string_from_chars,
};

verus! {

/// A parsed event from the agent's stream output.
pub enum StreamEvent {
    /// System initialization with session metadata.
    SystemInit { model: String, session_id: String },
    /// Assistant text output.
    AssistantText { text: String },
    /// The agent invoked a tool; `input` is the tool's raw argument object.
    ToolUse { tool_name: String, input: Json },
    /// Outcome of a tool invocation; an error stands for a denial or failure.
    ToolResult { is_error: bool, content: String },
    /// The one terminal event of an execution, with aggregate metrics.
    /// The cost is carried in millionths of a dollar.
    Result {
        is_error: bool,
        result_text: String,
        num_turns: u32,
        total_cost_micros: u64,
        duration_ms: u64,
        permission_denials: Vec<String>,
    },
    /// Any unrecognized event type.
    Unknown { event_type: String },
}

/// The mathematical counterpart of [`StreamEvent`].
pub enum EventSpec {
    SystemInit { model: Seq<char>, session_id: Seq<char> },
    AssistantText { text: Seq<char> },
    ToolUse { tool_name: Seq<char>, input: JsonSpec },
    ToolResult { is_error: bool, content: Seq<char> },
    Result {
        is_error: bool,
        result_text: Seq<char>,
        num_turns: u32,
        total_cost_micros: u64,
        duration_ms: u64,
        permission_denials: Seq<Seq<char>>,
    },
    Unknown { event_type: Seq<char> },
}

impl View for StreamEvent {
    type V = EventSpec;

    open spec fn view(&self) -> EventSpec {
        match self {
            StreamEvent::SystemInit { model, session_id } => EventSpec::SystemInit {
                model: model@,
                session_id: session_id@,
            },
            StreamEvent::AssistantText { text } => EventSpec::AssistantText { text: text@ },
            StreamEvent::ToolUse { tool_name, input } => EventSpec::ToolUse {
                tool_name: tool_name@,
                input: input@,
            },
            StreamEvent::ToolResult { is_error, content } => EventSpec::ToolResult {
                is_error: *is_error,
                content: content@,
            },
            StreamEvent::Result {
                is_error,
                result_text,
                num_turns,
                total_cost_micros,
                duration_ms,
                permission_denials,
            } => EventSpec::Result {
                is_error: *is_error,
                result_text: result_text@,
                num_turns: *num_turns,
                total_cost_micros: *total_cost_micros,
                duration_ms: *duration_ms,
                permission_denials: permission_denials.deep_view(),
            },
            StreamEvent::Unknown { event_type } => EventSpec::Unknown { event_type: event_type@ },
        }
    }
}

impl DeepView for StreamEvent {
    type V = EventSpec;

    open spec fn deep_view(&self) -> EventSpec {
        self.view()
    }
}

// --- field readings with defaults ---

/// The string field `key`, or `dflt` when absent or not a string.
pub open spec fn spec_str_or(v: JsonSpec, key: Seq<char>, dflt: Seq<char>) -> Seq<char> {
    match spec_get(v, key) {
        Some(JsonSpec::Str(s)) => s,
        _ => dflt,
    }
}

/// The boolean field `key`, or false.
pub open spec fn spec_bool_or_false(v: JsonSpec, key: Seq<char>) -> bool {
    match spec_get(v, key) {
        Some(JsonSpec::Bool(b)) => b,
        _ => false,
    }
}

/// The integer field `key` read as a `u64`, or zero.
pub open spec fn spec_u64_or_zero(v: JsonSpec, key: Seq<char>) -> nat {
    match spec_get(v, key) {
        Some(JsonSpec::Num(raw)) => match spec_num_u64(raw) {
            Some(n) => n,
            None => 0,
        },
        _ => 0,
    }
}

/// The integer field `key` saturated into a `u32`, or zero.
pub open spec fn spec_u32_sat_or_zero(v: JsonSpec, key: Seq<char>) -> u32 {
    let n = spec_u64_or_zero(v, key);
    if n > u32::MAX {
        u32::MAX
    } else {
        n as u32
    }
}

/// The decimal field `key` read as micro-dollars, or zero.
pub open spec fn spec_micros_or_zero(v: JsonSpec, key: Seq<char>) -> nat {
    match spec_get(v, key) {
        Some(JsonSpec::Num(raw)) => match spec_num_micros(raw) {
            Some(n) => n,
            None => 0,
        },
        _ => 0,
    }
}

/// The string elements of `items`, in order, other elements skipped.
pub open spec fn spec_str_items(items: Seq<JsonSpec>, k: int) -> Seq<Seq<char>>
    decreases items.len() - k,
{
    if k < 0 || k >= items.len() {
        Seq::empty()
    } else {
        match items[k] {
            JsonSpec::Str(s) => seq![s] + spec_str_items(items, k + 1),
            _ => spec_str_items(items, k + 1),
        }
    }
}

/// The string-array field `key` as its string elements, or empty.
pub open spec fn spec_str_arr_or_empty(v: JsonSpec, key: Seq<char>) -> Seq<Seq<char>> {
    match spec_get(v, key) {
        Some(JsonSpec::Arr(items)) => spec_str_items(items, 0),
        _ => Seq::empty(),
    }
}

// --- the event mapping ---

/// The event denoted by a `system` line.
pub open spec fn spec_system_event(v: JsonSpec) -> EventSpec {
    EventSpec::SystemInit {
        model: spec_str_or(v, "model"@, "unknown"@),
        session_id: spec_str_or(v, "session_id"@, ""@),
    }
}

/// The event denoted by a `result` line.
pub open spec fn spec_result_event(v: JsonSpec) -> EventSpec {
    EventSpec::Result {
        is_error: spec_bool_or_false(v, "is_error"@),
        result_text: spec_str_or(v, "result"@, ""@),
        num_turns: spec_u32_sat_or_zero(v, "num_turns"@),
        total_cost_micros: spec_micros_or_zero(v, "total_cost_usd"@) as u64,
        duration_ms: spec_u64_or_zero(v, "duration_ms"@) as u64,
        permission_denials: spec_str_arr_or_empty(v, "permission_denials"@),
    }
}

/// The first content block of a known kind, mapped to an event. A block
/// whose `type` is not a string poisons the whole line, as does a `text`
/// block without string text; unknown block types are skipped.
pub open spec fn spec_first_block(blocks: Seq<JsonSpec>, k: int) -> Option<EventSpec>
    decreases blocks.len() - k,
{
    if k < 0 || k >= blocks.len() {
        None
    } else {
        let b = blocks[k];
        match spec_get(b, "type"@) {
            Some(JsonSpec::Str(bt)) => if bt == "text"@ {
                match spec_get(b, "text"@) {
                    Some(JsonSpec::Str(tx)) => Some(EventSpec::AssistantText { text: tx }),
                    _ => None,
                }
            } else if bt == "tool_use"@ {
                Some(
                    EventSpec::ToolUse {
                        tool_name: spec_str_or(b, "name"@, "unknown"@),
                        input: match spec_get(b, "input"@) {
                            Some(inp) => inp,
                            None => JsonSpec::Null,
                        },
                    },
                )
            } else if bt == "tool_result"@ {
                Some(
                    EventSpec::ToolResult {
                        is_error: spec_bool_or_false(b, "is_error"@),
                        content: spec_str_or(b, "content"@, ""@),
                    },
                )
            } else {
                spec_first_block(blocks, k + 1)
            },
            _ => None,
        }
    }
}

/// The event denoted by an `assistant` line.
pub open spec fn spec_assistant_event(v: JsonSpec) -> Option<EventSpec> {
    match spec_get(v, "message"@) {
        Some(m) => match spec_get(m, "content"@) {
            Some(JsonSpec::Arr(blocks)) => spec_first_block(blocks, 0),
            _ => None,
        },
        _ => None,
    }
}

/// The event denoted by a parsed line: dispatch on the `type` string.
pub open spec fn spec_event_of_json(v: JsonSpec) -> Option<EventSpec> {
    match spec_get(v, "type"@) {
        Some(JsonSpec::Str(t)) => if t == "system"@ {
            Some(spec_system_event(v))
        } else if t == "assistant"@ {
            spec_assistant_event(v)
        } else if t == "result"@ {
            Some(spec_result_event(v))
        } else {
            Some(EventSpec::Unknown { event_type: t })
        },
        _ => None,
    }
}

/// What one line of agent output denotes: nothing unless the line is a JSON
/// object carrying a string `type`, and for `assistant` lines a known block.
pub open spec fn spec_parse_event(line: Seq<char>) -> Option<EventSpec> {
    match spec_parse_json(line) {
        Some(v) => spec_event_of_json(v),
        None => None,
    }
}

// --- executable field readings ---

/// Read the string field `key` of an object, with a default.
fn get_str_or(fields: &Vec<(Vec<char>, Json)>, key: &str, dflt: &str) -> (r: String)
    ensures
        r@ == spec_str_or(JsonSpec::Obj(view_items_obj(fields@)), key@, dflt@),
{
    match obj_get(fields, key) {
        Some(Json::Str(s)) => {
            let c = slice_range(s, 0, s.len());
            proof {
                assert(c@ =~= s@);
            }
            string_from_chars(&c)
        },
        _ => dflt.to_owned(),
    }
}

/// The viewed field list of an object, as `spec_get` sees it.
pub open spec fn view_items_obj(fields: Seq<(Vec<char>, Json)>) -> Seq<(Seq<char>, JsonSpec)> {
    crate::json::view_fields(fields, 0)
}

/// Read the boolean field `key` of an object, defaulting to false.
fn get_bool_or_false(fields: &Vec<(Vec<char>, Json)>, key: &str) -> (r: bool)
    ensures
        r == spec_bool_or_false(JsonSpec::Obj(view_items_obj(fields@)), key@),
{
    match obj_get(fields, key) {
        Some(Json::Bool(b)) => *b,
        _ => false,
    }
}

/// Read the integer field `key` of an object as a `u64`, defaulting to zero.
fn get_u64_or_zero(fields: &Vec<(Vec<char>, Json)>, key: &str) -> (r: u64)
    ensures
        r as nat == spec_u64_or_zero(JsonSpec::Obj(view_items_obj(fields@)), key@),
{
    match obj_get(fields, key) {
        Some(Json::Num(raw)) => match num_u64(raw) {
            Some(n) => n,
            None => 0,
        },
        _ => 0,
    }
}

/// Read the decimal field `key` of an object as micro-dollars, or zero.
fn get_micros_or_zero(fields: &Vec<(Vec<char>, Json)>, key: &str) -> (r: u64)
    ensures
        r as nat == spec_micros_or_zero(JsonSpec::Obj(view_items_obj(fields@)), key@),
{
    match obj_get(fields, key) {
        Some(Json::Num(raw)) => match num_micros(raw) {
            Some(n) => n,
            None => 0,
        },
        _ => 0,
    }
}

/// Read the string-array field `key` of an object as its string elements.
fn get_str_arr_or_empty(fields: &Vec<(Vec<char>, Json)>, key: &str) -> (r: Vec<String>)
    ensures
        r.deep_view() == spec_str_arr_or_empty(JsonSpec::Obj(view_items_obj(fields@)), key@),
{
    let mut out: Vec<String> = Vec::new();
    match obj_get(fields, key) {
        Some(Json::Arr(items)) => {
            let ghost iv = view_items(items@, 0);
            proof {
                lemma_view_items_len(items@, 0);
            }
            let mut k: usize = 0;
            while k < items.len()
                invariant
                    k <= items@.len(),
                    iv == view_items(items@, 0),
                    iv.len() == items@.len(),
                    out.deep_view() + spec_str_items(iv, k as int) == spec_str_items(iv, 0),
                decreases items@.len() - k,
            {
                let ghost pre = out.deep_view();
                proof {
                    lemma_view_items_index(items@, 0, k as int);
                    assert(iv[k as int] == items@[k as int]@);
                }
                match &items[k] {
                    Json::Str(s) => {
                        let c = slice_range(s, 0, s.len());
                        proof {
                            assert(c@ =~= s@);
                        }
                        out.push(string_from_chars(&c));
                        proof {
                            assert(out.deep_view() =~~= pre.push(s@));
                            assert(pre.push(s@) + spec_str_items(iv, k + 1) =~~= pre + (seq![s@]
                                + spec_str_items(iv, k + 1)));
                        }
                    },
                    _ => {},
                }
                k = k + 1;
            }
            proof {
                assert(spec_str_items(iv, items@.len() as int) =~~= Seq::<Seq<char>>::empty());
                assert(out.deep_view() =~~= out.deep_view() + spec_str_items(
                    iv,
                    items@.len() as int,
                ));
            }
            out
        },
        _ => {
            proof {
                assert(out.deep_view() =~~= Seq::<Seq<char>>::empty());
            }
            out
        },
    }
}

/// Copy a character vector.
pub fn copy_chars_pub(s: &Vec<char>) -> (r: Vec<char>)
    ensures
        r@ == s@,
{
    let c = slice_range(s, 0, s.len());
    proof {
        assert(c@ =~= s@);
    }
    c
}

/// Copy a character vector.
fn copy_chars(s: &Vec<char>) -> (r: Vec<char>)
    ensures
        r@ == s@,
{
    let c = slice_range(s, 0, s.len());
    proof {
        assert(c@ =~= s@);
    }
    c
}

// --- the event mapping, executably ---

/// Map a parsed line to its event, if any; mirrors `spec_event_of_json`.
pub fn event_of_json(v: &Json) -> (r: Option<StreamEvent>)
    ensures
        match r {
            Some(e) => spec_event_of_json(v@) == Some(e@),
            None => spec_event_of_json(v@) is None,
        },
{
    let fields = match v {
        Json::Obj(f) => f,
        _ => {
            return None;
        },
    };
    let t: &Vec<char> = match obj_get(fields, "type") {
        Some(Json::Str(t)) => t,
        _ => {
            return None;
        },
    };
    let system = chars_of("system");
    let assistant = chars_of("assistant");
    let result = chars_of("result");
    if eq_chars(t, &system) {
        let model = get_str_or(fields, "model", "unknown");
        let session_id = get_str_or(fields, "session_id", "");
        Some(StreamEvent::SystemInit { model, session_id })
    } else if eq_chars(t, &assistant) {
        let msg_fields = match obj_get(fields, "message") {
            Some(Json::Obj(mf)) => mf,
            _ => {
                return None;
            },
        };
        let blocks = match obj_get(msg_fields, "content") {
            Some(Json::Arr(items)) => items,
            _ => {
                return None;
            },
        };
        first_block_event(blocks)
    } else if eq_chars(t, &result) {
        let num_turns_u64 = get_u64_or_zero(fields, "num_turns");
        let num_turns: u32 = if num_turns_u64 > 0xffff_ffff {
            u32::MAX
        } else {
            num_turns_u64 as u32
        };
        Some(
            StreamEvent::Result {
                is_error: get_bool_or_false(fields, "is_error"),
                result_text: get_str_or(fields, "result", ""),
                num_turns,
                total_cost_micros: get_micros_or_zero(fields, "total_cost_usd"),
                duration_ms: get_u64_or_zero(fields, "duration_ms"),
                permission_denials: get_str_arr_or_empty(fields, "permission_denials"),
            },
        )
    } else {
        let event_type = string_from_chars(t);
        Some(StreamEvent::Unknown { event_type })
    }
}

/// Scan the content blocks for the first of a known kind.
fn first_block_event(blocks: &Vec<Json>) -> (r: Option<StreamEvent>)
    ensures
        match r {
            Some(e) => spec_first_block(view_items(blocks@, 0), 0) == Some(e@),
            None => spec_first_block(view_items(blocks@, 0), 0) is None,
        },
{
    let ghost bv = view_items(blocks@, 0);
    proof {
        lemma_view_items_len(blocks@, 0);
    }
    let text_lit = chars_of("text");
    let tool_use_lit = chars_of("tool_use");
    let tool_result_lit = chars_of("tool_result");
    let mut k: usize = 0;
    while k < blocks.len()
        invariant
            k <= blocks@.len(),
            bv == view_items(blocks@, 0),
            bv.len() == blocks@.len(),
            text_lit@ == "text"@ && tool_use_lit@ == "tool_use"@ && tool_result_lit@
                == "tool_result"@,
            spec_first_block(bv, 0) == spec_first_block(bv, k as int),
        decreases blocks@.len() - k,
    {
        proof {
            lemma_view_items_index(blocks@, 0, k as int);
            assert(bv[k as int] == blocks@[k as int]@);
        }
        let bfields = match &blocks[k] {
            Json::Obj(bf) => bf,
            _ => {
                return None;
            },
        };
        let bt: &Vec<char> = match obj_get(bfields, "type") {
            Some(Json::Str(bt)) => bt,
            _ => {
                return None;
            },
        };
        if eq_chars(bt, &text_lit) {
            match obj_get(bfields, "text") {
                Some(Json::Str(tx)) => {
                    let c = copy_chars(tx);
                    return Some(StreamEvent::AssistantText { text: string_from_chars(&c) });
                },
                _ => {
                    return None;
                },
            }
        } else if eq_chars(bt, &tool_use_lit) {
            let tool_name = get_str_or(bfields, "name", "unknown");
            let input: Json = match obj_get(bfields, "input") {
                Some(inp) => copy_json(inp),
                None => Json::Null,
            };
            return Some(StreamEvent::ToolUse { tool_name, input });
        } else if eq_chars(bt, &tool_result_lit) {
            return Some(
                StreamEvent::ToolResult {
                    is_error: get_bool_or_false(bfields, "is_error"),
                    content: get_str_or(bfields, "content", ""),
                },
            );
        }
        k = k + 1;
    }
    None
}

/// Structural copy of a JSON value.
pub fn copy_json(v: &Json) -> (r: Json)
    ensures
        r@ == v@,
    decreases *v,
{
    match v {
        Json::Null => Json::Null,
        Json::Bool(b) => Json::Bool(*b),
        Json::Num(raw) => Json::Num(copy_chars(raw)),
        Json::Str(s) => Json::Str(copy_chars(s)),
        Json::Arr(items) => {
            let mut out: Vec<Json> = Vec::new();
            let mut k: usize = 0;
            while k < items.len()
                invariant
                    k <= items@.len(),
                    out@.len() == k,
                    forall|i: int| 0 <= i < k ==> out@[i]@ == #[trigger] items@[i]@,
                decreases items@.len() - k,
            {
                out.push(copy_json(&items[k]));
                k = k + 1;
            }
            proof {
                lemma_view_items_eq(out@, items@, 0);
            }
            Json::Arr(out)
        },
        Json::Obj(fields) => {
            let mut out: Vec<(Vec<char>, Json)> = Vec::new();
            let mut k: usize = 0;
            while k < fields.len()
                invariant
                    k <= fields@.len(),
                    out@.len() == k,
                    forall|i: int| 0 <= i < k ==> (#[trigger] out@[i]).0@ == fields@[i].0@
                        && out@[i].1@ == fields@[i].1@,
                decreases fields@.len() - k,
            {
                let key = copy_chars(&fields[k].0);
                let val = copy_json(&fields[k].1);
                out.push((key, val));
                k = k + 1;
            }
            proof {
                lemma_view_fields_eq(out@, fields@, 0);
            }
            Json::Obj(out)
        },
    }
}

/// Two item lists with pointwise equal views have equal views.
proof fn lemma_view_items_eq(a: Seq<Json>, b: Seq<Json>, k: int)
    requires
        a.len() == b.len(),
        0 <= k <= a.len(),
        forall|i: int| 0 <= i < a.len() ==> a[i]@ == #[trigger] b[i]@,
    ensures
        view_items(a, k) == view_items(b, k),
    decreases a.len() - k,
{
    if k < a.len() {
        lemma_view_items_eq(a, b, k + 1);
        assert(a[k]@ == b[k]@);
        assert(view_items(a, k) == seq![a[k]@] + view_items(a, k + 1));
        assert(view_items(b, k) == seq![b[k]@] + view_items(b, k + 1));
        assert(view_items(a, k) =~= view_items(b, k));
    } else {
        assert(view_items(a, k) =~= view_items(b, k));
    }
}

proof fn lemma_view_fields_eq(a: Seq<(Vec<char>, Json)>, b: Seq<(Vec<char>, Json)>, k: int)
    requires
        a.len() == b.len(),
        0 <= k <= a.len(),
        forall|i: int| 0 <= i < a.len() ==> (#[trigger] a[i]).0@ == b[i].0@ && a[i].1@ == b[i].1@,
    ensures
        crate::json::view_fields(a, k) == crate::json::view_fields(b, k),
    decreases a.len() - k,
{
    if k < a.len() {
        lemma_view_fields_eq(a, b, k + 1);
        assert(a[k].0@ == b[k].0@ && a[k].1@ == b[k].1@);
        assert(crate::json::view_fields(a, k) == seq![(a[k].0@, a[k].1@)]
            + crate::json::view_fields(a, k + 1));
        assert(crate::json::view_fields(b, k) == seq![(b[k].0@, b[k].1@)]
            + crate::json::view_fields(b, k + 1));
        assert(crate::json::view_fields(a, k) =~= crate::json::view_fields(b, k));
    } else {
        assert(crate::json::view_fields(a, k) =~= crate::json::view_fields(b, k));
    }
}

/// Parse a single line of stream output into an event.
///
/// Yields nothing exactly when the line denotes nothing: a blank line, a
/// line that is not one JSON object, a line without a string `type`, or an
/// `assistant` line without a usable content block.
pub fn parse_event(line: &str) -> (r: Option<StreamEvent>)
    ensures
        match r {
            Some(e) => spec_parse_event(line@) == Some(e@),
            None => spec_parse_event(line@) is None,
        },
{
    let chars = chars_of(line);
    match parse_json(&chars) {
        Some(v) => event_of_json(&v),
        None => None,
    }
}

// --- reading test counts out of tool output ---

/// The start of the digit run that ends just before position `i`.
pub open spec fn spec_rscan_digits(c: Seq<char>, i: int) -> int
    decreases i,
{
    if i <= 0 {
        0
    } else if 0 <= i - 1 < c.len() && spec_is_digit(c[i - 1]) {
        spec_rscan_digits(c, i - 1)
    } else {
        i
    }
}

/// The number of passed tests named by a tool result, when its content
/// carries the test-runner summary: the digit run directly before the first
/// ` passed`, provided some non-digit precedes the run, the text contains
/// `test result`, and the count fits a `u32`.
pub open spec fn spec_tests_passed(c: Seq<char>) -> Option<u32> {
    match spec_find_at(c, " passed"@, 0) {
        None => None,
        Some(idx) => {
            let start = spec_rscan_digits(c, idx);
            if start == 0 || start == idx || !spec_contains_seq(c, "test result"@) {
                None
            } else {
                let v = spec_digits_val(c.subrange(start, idx));
                if v > u32::MAX {
                    None
                } else {
                    Some(v as u32)
                }
            }
        },
    }
}

/// Read a passed-test count out of tool-result content.
pub fn parse_tests_passed(content: &str) -> (r: Option<u32>)
    ensures
        r == spec_tests_passed(content@),
{
    let c = chars_of(content);
    let needle = chars_of(" passed");
    let marker = chars_of("test result");
    proof {
        lemma_find_at_first(c@, needle@, 0);
    }
    let idx = match find_seq(&c, &needle, 0) {
        Some(i) => i,
        None => {
            proof {
                if spec_find_at(c@, needle@, 0) is Some {
                    let j = spec_find_at(c@, needle@, 0)->0;
                    assert(spec_match_at(c@, needle@, j));
                    assert(false);
                }
            }
            return None;
        },
    };
    proof {
        let sf = spec_find_at(c@, needle@, 0);
        if sf is None {
            assert(!spec_match_at(c@, needle@, idx as int));
            assert(false);
        }
        let j = sf->0;
        if j < idx {
            assert(spec_match_at(c@, needle@, j));
            assert(false);
        }
        if idx < j {
            assert(!spec_match_at(c@, needle@, idx as int));
            assert(false);
        }
    }
    let mut start: usize = idx;
    while start > 0 && is_digit(c[start - 1])
        invariant
            start <= idx,
            idx <= c@.len(),
            spec_rscan_digits(c@, idx as int) == spec_rscan_digits(c@, start as int),
            forall|x: int| start <= x < idx ==> spec_is_digit(#[trigger] c@[x]),
        decreases start,
    {
        start = start - 1;
    }
    if start == 0 || start == idx {
        return None;
    }
    if !crate::text::contains_seq(&c, &marker) {
        return None;
    }
    match crate::text::parse_u64_range(&c, start, idx) {
        Some(n) => {
            if n > 0xffff_ffff {
                None
            } else {
                Some(n as u32)
            }
        },
        None => {
            proof {
                assert(spec_all_digits(c@.subrange(start as int, idx as int)));
            }
            None
        },
    }
}

// --- permission-fix suggestions ---

/// The configuration hint for a denied tool name: the bare read-only tools
/// map to themselves, the editing and shell tools to parameterized
/// suggestions, anything else is returned unchanged.
pub open spec fn spec_suggest_fix(t: Seq<char>) -> Seq<char> {
    if t == "Read"@ {
        "Read"@
    } else if t == "Glob"@ {
        "Glob"@
    } else if t == "Grep"@ {
        "Grep"@
    } else if spec_starts_with(t, "Edit"@) {
        "Edit(./**) or Edit(./src/**)"@
    } else if spec_starts_with(t, "Write"@) {
        "Write(./**) or Write(./src/**)"@
    } else if spec_starts_with(t, "Bash"@) {
        "Bash(*) or Bash(cargo *)"@
    } else {
        t
    }
}

/// Suggest a permission string for a denied tool.
pub fn suggest_permission_fix(tool_name: &str) -> (r: String)
    ensures
        r@ == spec_suggest_fix(tool_name@),
{
    let t = chars_of(tool_name);
    if eq_chars(&t, &chars_of("Read")) {
        "Read".to_owned()
    } else if eq_chars(&t, &chars_of("Glob")) {
        "Glob".to_owned()
    } else if eq_chars(&t, &chars_of("Grep")) {
        "Grep".to_owned()
    } else if crate::text::starts_with(&t, &chars_of("Edit")) {
        "Edit(./**) or Edit(./src/**)".to_owned()
    } else if crate::text::starts_with(&t, &chars_of("Write")) {
        "Write(./**) or Write(./src/**)".to_owned()
    } else if crate::text::starts_with(&t, &chars_of("Bash")) {
        "Bash(*) or Bash(cargo *)".to_owned()
    } else {
        tool_name.to_owned()
    }
}

// --- the accumulator ---

/// The per-execution fold of the event stream.
pub struct StreamAccumulator {
    /// Assistant text chunks, in order.
    pub text_fragments: Vec<String>,
    /// One tool name per tool invocation, in order.
    pub tools_used: Vec<String>,
    /// Contents of error tool results, in order.
    pub tool_errors: Vec<String>,
    /// The terminal result event, if one arrived.
    pub result: Option<StreamEvent>,
    /// The session id from the first system event.
    pub session_id: Option<String>,
    /// Distinct files named by edit and write tool uses, in first-seen order.
    pub files_changed: Vec<String>,
    /// Saturating sum of passed-test counts from successful tool results.
    pub tests_passed: u32,
}

/// The mathematical counterpart of [`StreamAccumulator`].
pub struct AccumSpec {
    pub text_fragments: Seq<Seq<char>>,
    pub tools_used: Seq<Seq<char>>,
    pub tool_errors: Seq<Seq<char>>,
    pub result: Option<EventSpec>,
    pub session_id: Option<Seq<char>>,
    pub files_changed: Seq<Seq<char>>,
    pub tests_passed: u32,
}

impl View for StreamAccumulator {
    type V = AccumSpec;

    open spec fn view(&self) -> AccumSpec {
        AccumSpec {
            text_fragments: self.text_fragments.deep_view(),
            tools_used: self.tools_used.deep_view(),
            tool_errors: self.tool_errors.deep_view(),
            result: match self.result {
                Some(e) => Some(e@),
                None => None,
            },
            session_id: match self.session_id {
                Some(ref s) => Some(s@),
                None => None,
            },
            files_changed: self.files_changed.deep_view(),
            tests_passed: self.tests_passed,
        }
    }
}

/// The empty accumulator.
pub open spec fn spec_acc_empty() -> AccumSpec {
    AccumSpec {
        text_fragments: Seq::empty(),
        tools_used: Seq::empty(),
        tool_errors: Seq::empty(),
        result: None,
        session_id: None,
        files_changed: Seq::empty(),
        tests_passed: 0,
    }
}

/// The file path a tool-use event changes, when the tool is `Edit` or
/// `Write` and its input carries a string `file_path`.
pub open spec fn spec_edit_path(e: EventSpec) -> Option<Seq<char>> {
    match e {
        EventSpec::ToolUse { tool_name, input } => if tool_name == "Edit"@ || tool_name
            == "Write"@ {
            match spec_get(input, "file_path"@) {
                Some(JsonSpec::Str(p)) => Some(p),
                _ => None,
            }
        } else {
            None
        },
        _ => None,
    }
}

/// Saturating `u32` addition.
pub open spec fn spec_sat_add_u32(a: u32, b: nat) -> u32 {
    if a + b > u32::MAX {
        u32::MAX
    } else {
        (a + b) as u32
    }
}

/// One accumulator step.
pub open spec fn spec_acc_step(a: AccumSpec, e: EventSpec) -> AccumSpec {
    match e {
        EventSpec::SystemInit { session_id, .. } => AccumSpec {
            session_id: if a.session_id is None {
                Some(session_id)
            } else {
                a.session_id
            },
            ..a
        },
        EventSpec::AssistantText { text } => AccumSpec {
            text_fragments: a.text_fragments.push(text),
            ..a
        },
        EventSpec::ToolUse { tool_name, input } => {
            let with_tool = AccumSpec { tools_used: a.tools_used.push(tool_name), ..a };
            match spec_edit_path(e) {
                Some(p) => if with_tool.files_changed.contains(p) {
                    with_tool
                } else {
                    AccumSpec { files_changed: with_tool.files_changed.push(p), ..with_tool }
                },
                None => with_tool,
            }
        },
        EventSpec::ToolResult { is_error, content } => if is_error {
            AccumSpec { tool_errors: a.tool_errors.push(content), ..a }
        } else {
            match spec_tests_passed(content) {
                Some(n) => AccumSpec {
                    tests_passed: spec_sat_add_u32(a.tests_passed, n as nat),
                    ..a
                },
                None => a,
            }
        },
        EventSpec::Result { .. } => AccumSpec { result: Some(e), ..a },
        EventSpec::Unknown { .. } => a,
    }
}

impl StreamAccumulator {
    /// Create a new empty accumulator.
    pub fn new() -> (r: StreamAccumulator)
        ensures
            r@ == spec_acc_empty(),
    {
        let r = StreamAccumulator {
            text_fragments: Vec::new(),
            tools_used: Vec::new(),
            tool_errors: Vec::new(),
            result: None,
            session_id: None,
            files_changed: Vec::new(),
            tests_passed: 0,
        };
        proof {
            assert(r@.text_fragments =~~= spec_acc_empty().text_fragments);
            assert(r@.tools_used =~~= spec_acc_empty().tools_used);
            assert(r@.tool_errors =~~= spec_acc_empty().tool_errors);
            assert(r@.files_changed =~~= spec_acc_empty().files_changed);
        }
        r
    }

    /// Fold one event into the accumulator.
    pub fn process(&mut self, event: &StreamEvent)
        ensures
            final(self)@ == spec_acc_step(old(self)@, event@),
    {
        match event {
            StreamEvent::SystemInit { session_id, .. } => {
                if self.session_id.is_none() {
                    self.session_id = Some(clone_string(session_id));
                }
            },
            StreamEvent::AssistantText { text } => {
                let ghost pre = self.text_fragments.deep_view();
                self.text_fragments.push(clone_string(text));
                proof {
                    assert(self.text_fragments.deep_view() =~~= pre.push(text@));
                }
            },
            StreamEvent::ToolUse { tool_name, input } => {
                let ghost pre = self.tools_used.deep_view();
                self.tools_used.push(clone_string(tool_name));
                proof {
                    assert(self.tools_used.deep_view() =~~= pre.push(tool_name@));
                }
                let is_edit = {
                    let t = chars_of(tool_name.as_str());
                    eq_chars(&t, &chars_of("Edit")) || eq_chars(&t, &chars_of("Write"))
                };
                if is_edit {
                    let fields = match input {
                        Json::Obj(f) => f,
                        _ => {
                            return ;
                        },
                    };
                    match obj_get(fields, "file_path") {
                        Some(Json::Str(p)) => {
                            let pc = copy_chars(p);
                            let path = string_from_chars(&pc);
                            if !contains_string(&self.files_changed, &path) {
                                let ghost pref = self.files_changed.deep_view();
                                self.files_changed.push(path);
                                proof {
                                    assert(self.files_changed.deep_view() =~~= pref.push(p@));
                                }
                            }
                        },
                        _ => {},
                    }
                }
            },
            StreamEvent::ToolResult { is_error, content } => {
                if *is_error {
                    let ghost pre = self.tool_errors.deep_view();
                    self.tool_errors.push(clone_string(content));
                    proof {
                        assert(self.tool_errors.deep_view() =~~= pre.push(content@));
                    }
                } else {
                    match parse_tests_passed(content.as_str()) {
                        Some(n) => {
                            if self.tests_passed as u64 + n as u64 > 0xffff_ffff {
                                self.tests_passed = u32::MAX;
                            } else {
                                self.tests_passed = self.tests_passed + n;
                            }
                        },
                        None => {},
                    }
                }
            },
            StreamEvent::Result { .. } => {
                self.result = Some(clone_event(event));
            },
            StreamEvent::Unknown { .. } => {},
        }
    }

    /// The length of the result's denial list, or zero without a result.
    pub fn permission_denial_count(&self) -> (r: u32)
        ensures
            r as nat == spec_denial_count(self@),
    {
        match &self.result {
            Some(StreamEvent::Result { permission_denials, .. }) => {
                if permission_denials.len() > 0xffff_ffff {
                    u32::MAX
                } else {
                    proof {
                        assert(permission_denials.deep_view().len()
                            == permission_denials@.len());
                    }
                    permission_denials.len() as u32
                }
            },
            _ => 0,
        }
    }
}

/// The denial count an accumulator reports.
pub open spec fn spec_denial_count(a: AccumSpec) -> nat {
    match a.result {
        Some(EventSpec::Result { permission_denials, .. }) => if permission_denials.len()
            > u32::MAX {
            u32::MAX as nat
        } else {
            permission_denials.len()
        },
        _ => 0,
    }
}

/// Clone a string with its view.
pub fn clone_string(s: &String) -> (r: String)
    ensures
        r@ == s@,
{
    s.clone()
}

/// Clone an event with its view.
pub fn clone_event(e: &StreamEvent) -> (r: StreamEvent)
    ensures
        r@ == e@,
{
    match e {
        StreamEvent::SystemInit { model, session_id } => StreamEvent::SystemInit {
            model: clone_string(model),
            session_id: clone_string(session_id),
        },
        StreamEvent::AssistantText { text } => StreamEvent::AssistantText {
            text: clone_string(text),
        },
        StreamEvent::ToolUse { tool_name, input } => StreamEvent::ToolUse {
            tool_name: clone_string(tool_name),
            input: copy_json(input),
        },
        StreamEvent::ToolResult { is_error, content } => StreamEvent::ToolResult {
            is_error: *is_error,
            content: clone_string(content),
        },
        StreamEvent::Result {
            is_error,
            result_text,
            num_turns,
            total_cost_micros,
            duration_ms,
            permission_denials,
        } => {
            let mut pd: Vec<String> = Vec::new();
            let mut k: usize = 0;
            while k < permission_denials.len()
                invariant
                    k <= permission_denials@.len(),
                    pd.deep_view() == permission_denials.deep_view().take(k as int),
                decreases permission_denials@.len() - k,
            {
                let ghost pre = pd.deep_view();
                pd.push(clone_string(&permission_denials[k]));
                proof {
                    assert(pd.deep_view() =~~= pre.push(permission_denials@[k as int]@));
                    assert(permission_denials.deep_view().take(k + 1) =~~= pre.push(
                        permission_denials@[k as int]@,
                    ));
                }
                k = k + 1;
            }
            proof {
                assert(pd.deep_view() =~~= permission_denials.deep_view());
            }
            StreamEvent::Result {
                is_error: *is_error,
                result_text: clone_string(result_text),
                num_turns: *num_turns,
                total_cost_micros: *total_cost_micros,
                duration_ms: *duration_ms,
                permission_denials: pd,
            }
        },
        StreamEvent::Unknown { event_type } => StreamEvent::Unknown {
            event_type: clone_string(event_type),
        },
    }
}

/// Does the vector hold a string with this text?
pub fn contains_string(v: &Vec<String>, s: &String) -> (r: bool)
    ensures
        r == v.deep_view().contains(s@),
{
    let mut k: usize = 0;
    while k < v.len()
        invariant
            k <= v@.len(),
            forall|i: int| 0 <= i < k ==> v.deep_view()[i] != s@,
        decreases v@.len() - k,
    {
        if eq_str(&v[k], s) {
            proof {
                assert(v.deep_view()[k as int] == s@);
            }
            return true;
        }
        k = k + 1;
    }
    proof {
        if v.deep_view().contains(s@) {
            let i = choose|i: int| 0 <= i < v.deep_view().len() && v.deep_view()[i] == s@;
            assert(v.deep_view()[i] != s@);
        }
    }
    false
}

/// String equality by text.
pub fn eq_str(a: &String, b: &String) -> (r: bool)
    ensures
        r == (a@ == b@),
{
    a.eq(b)
}

// --- laws of the parser and the accumulator ---

/// The line, once parsed, carries a string `type`.
pub open spec fn spec_has_string_type(line: Seq<char>) -> bool {
    match spec_parse_json(line) {
        Some(v) => match spec_get(v, "type"@) {
            Some(JsonSpec::Str(_)) => true,
            _ => false,
        },
        None => false,
    }
}

/// A line of nothing but whitespace denotes no event.
pub proof fn lemma_blank_line_no_event(line: Seq<char>)
    requires
        crate::text::spec_is_blank(line),
    ensures
        spec_parse_event(line) is None,
{
    if line.len() < crate::json::MAX_TEXT_LEN {
        let fuel = (2 * line.len() + 2) as nat;
        crate::json::lemma_skip_ws_stops(line, 0);
        let j = crate::json::spec_skip_ws(line, 0);
        if j < line.len() {
            assert(crate::text::spec_is_ws(line[j]));
            assert(!crate::json::spec_is_json_ws(line[j]));
            let u = line[j] as u32;
            assert(u != 0x6e && u != 0x74 && u != 0x66 && u != 0x22 && u != 0x2d && u != 0x5b
                && u != 0x7b && !(0x30 <= u && u <= 0x39));
            assert(crate::json::spec_parse_value(line, 0, crate::json::MAX_DEPTH as nat, fuel)
                is None);
        }
    }
}

/// The parser yields at most one event, and — away from `assistant` lines,
/// where the content blocks also decide — yields nothing exactly when the
/// line is not one JSON object carrying a string `type`.
pub proof fn lemma_parse_event_none(line: Seq<char>)
    requires
        match spec_parse_json(line) {
            Some(v) => spec_str_or(v, "type"@, ""@) != "assistant"@,
            None => true,
        },
    ensures
        (spec_parse_event(line) is None) <==> !spec_has_string_type(line),
{
}

/// Fold a whole event sequence into an accumulator.
pub open spec fn spec_acc_fold(a: AccumSpec, events: Seq<EventSpec>) -> AccumSpec
    decreases events.len(),
{
    if events.len() == 0 {
        a
    } else {
        spec_acc_step(spec_acc_fold(a, events.drop_last()), events.last())
    }
}

/// The file paths the events name, one per edit or write with a path.
pub open spec fn spec_edit_paths(events: Seq<EventSpec>) -> Seq<Seq<char>>
    decreases events.len(),
{
    if events.len() == 0 {
        Seq::empty()
    } else {
        spec_edit_paths(events.drop_last()) + (match spec_edit_path(events.last()) {
            Some(p) => seq![p],
            None => Seq::empty(),
        })
    }
}

/// The saturating sum of the passed-test counts the events carry.
pub open spec fn spec_tests_sum(events: Seq<EventSpec>) -> u32
    decreases events.len(),
{
    if events.len() == 0 {
        0
    } else {
        let n: nat = match events.last() {
            EventSpec::ToolResult { is_error, content } => if !is_error {
                match spec_tests_passed(content) {
                    Some(c) => c as nat,
                    None => 0,
                }
            } else {
                0
            },
            _ => 0,
        };
        spec_sat_add_u32(spec_tests_sum(events.drop_last()), n)
    }
}

/// Folding any event sequence from the empty accumulator keeps
/// `files_changed` equal to the first-occurrence deduplication of the paths
/// the events name — so it holds no duplicates and preserves first-seen
/// order — and keeps `tests_passed` equal to the saturating sum of the
/// passed-test counts read from successful tool results.
pub proof fn lemma_accumulator_fold(events: Seq<EventSpec>)
    ensures
        spec_acc_fold(spec_acc_empty(), events).files_changed == spec_dedup_first(
            spec_edit_paths(events),
        ),
        spec_distinct(spec_acc_fold(spec_acc_empty(), events).files_changed),
        spec_acc_fold(spec_acc_empty(), events).tests_passed == spec_tests_sum(events),
    decreases events.len(),
{
    lemma_dedup_first_props(spec_edit_paths(events));
    if events.len() == 0 {
    } else {
        lemma_accumulator_fold(events.drop_last());
        let a = spec_acc_fold(spec_acc_empty(), events.drop_last());
        let e = events.last();
        let paths_pre = spec_edit_paths(events.drop_last());
        let paths = spec_edit_paths(events);
        match spec_edit_path(e) {
            Some(p) => {
                assert(paths =~= paths_pre.push(p));
                assert(paths.drop_last() =~= paths_pre);
                assert(paths.last() == p);
                assert(spec_dedup_first(paths) == if spec_dedup_first(paths_pre).contains(p) {
                    spec_dedup_first(paths_pre)
                } else {
                    spec_dedup_first(paths_pre).push(p)
                });
            },
            None => {
                assert(paths =~= paths_pre);
            },
        }
    }
}

/// The response text an execution yields: the terminal result's text when
/// one arrived, else the assistant text fragments joined.
pub open spec fn spec_response_text(a: AccumSpec) -> Seq<char> {
    match a.result {
        Some(EventSpec::Result { result_text, .. }) => result_text,
        _ => spec_concat_all(a.text_fragments, 0),
    }
}

/// All fragments concatenated.
pub open spec fn spec_concat_all(fragments: Seq<Seq<char>>, k: int) -> Seq<char>
    decreases fragments.len() - k,
{
    if !(0 <= k < fragments.len()) {
        Seq::empty()
    } else {
        fragments[k] + spec_concat_all(fragments, k + 1)
    }
}

/// Extract the response text from an accumulator.
pub fn response_text(acc: &StreamAccumulator) -> (r: String)
    ensures
        r@ == spec_response_text(acc@),
{
    match &acc.result {
        Some(StreamEvent::Result { result_text, .. }) => clone_string(result_text),
        _ => {
            let ghost fv = acc.text_fragments.deep_view();
            let mut out: Vec<char> = Vec::new();
            let mut k: usize = 0;
            while k < acc.text_fragments.len()
                invariant
                    k <= acc.text_fragments@.len(),
                    fv == acc.text_fragments.deep_view(),
                    fv.len() == acc.text_fragments@.len(),
                    spec_concat_all(fv, 0) == out@ + (if k < fv.len() {
                        spec_concat_all(fv, k as int)
                    } else {
                        Seq::<char>::empty()
                    }),
                decreases acc.text_fragments@.len() - k,
            {
                let ghost pre = out@;
                crate::text::push_string(&mut out, &acc.text_fragments[k]);
                proof {
                    if k + 1 < fv.len() {
                        assert(out@ + spec_concat_all(fv, k + 1) =~= pre + spec_concat_all(
                            fv,
                            k as int,
                        ));
                    } else {
                        assert(spec_concat_all(fv, k + 1) =~= Seq::<char>::empty());
                        assert(out@ + spec_concat_all(fv, k + 1) =~= pre + spec_concat_all(
                            fv,
                            k as int,
                        ));
                    }
                }
                k = k + 1;
            }
            proof {
                if fv.len() == 0 {
                    assert(spec_concat_all(fv, 0) =~= Seq::<char>::empty());
                }
                assert(out@ =~= spec_concat_all(fv, 0));
            }
            string_from_chars(&out)
        },
    }
}

} // verus!
