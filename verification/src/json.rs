//! A small JSON document model with an emitter and a parser.
//!
//! The agent's stream output, the history log and the progress snapshot all
//! speak line-oriented JSON, so the library carries its own document model:
//! a number is kept as its raw token text, a string as decoded characters.
//! The emitter and parser below define exactly which texts this crate writes
//! and accepts.

use vstd::prelude::*;

use crate::text::{
    spec_all_digits, spec_digit_char, spec_digit_val, spec_digits_val, spec_format_nat,
    spec_is_digit, spec_match_at, format_u64, is_digit, lemma_format_nat_val, parse_u64_range,
    push_u64, slice_range,
};

verus! {

/// A JSON value. Numbers keep their raw token text; strings are decoded.
pub enum Json {
    Null,
    Bool(bool),
    /// The raw number token, e.g. `-12.5e3`.
    Num(Vec<char>),
    Str(Vec<char>),
    Arr(Vec<Json>),
    Obj(Vec<(Vec<char>, Json)>),
}

// --- string escaping ---

pub open spec fn spec_hex_digit(d: nat) -> char {
    if d < 10 {
        spec_digit_char(d)
    } else {
        (((d - 10) + 0x61) as u8) as char
    }
}

/// How one character is written inside a JSON string literal: the two-letter
/// escapes for the common control characters, `\u00XX` for the rest of the
/// control range, and the character itself otherwise.
pub open spec fn spec_escape_char(c: char) -> Seq<char> {
    let u = c as u32;
    if u == 0x22 {
        seq!['\\', '"']
    } else if u == 0x5c {
        seq!['\\', '\\']
    } else if u == 0x8 {
        seq!['\\', 'b']
    } else if u == 0xc {
        seq!['\\', 'f']
    } else if u == 0xa {
        seq!['\\', 'n']
    } else if u == 0xd {
        seq!['\\', 'r']
    } else if u == 0x9 {
        seq!['\\', 't']
    } else if u < 0x20 {
        seq!['\\', 'u', '0', '0', spec_hex_digit((u / 16) as nat), spec_hex_digit((u % 16) as nat)]
    } else {
        seq![c]
    }
}

/// The escaped form of a whole string body.
pub open spec fn spec_escape(s: Seq<char>) -> Seq<char>
    decreases s.len(),
{
    if s.len() == 0 {
        Seq::empty()
    } else {
        spec_escape(s.drop_last()) + spec_escape_char(s.last())
    }
}

/// Append the escaped form of `s` to `out`.
pub fn push_escaped(out: &mut Vec<char>, s: &Vec<char>)
    ensures
        final(out)@ == old(out)@ + spec_escape(s@),
{
    let mut i: usize = 0;
    while i < s.len()
        invariant
            0 <= i <= s@.len(),
            out@ == old(out)@ + spec_escape(s@.take(i as int)),
        decreases s@.len() - i,
    {
        let ghost pre = out@;
        let c = s[i];
        let u = c as u32;
        if u == 0x22 {
            out.push('\\');
            out.push('"');
        } else if u == 0x5c {
            out.push('\\');
            out.push('\\');
        } else if u == 0x8 {
            out.push('\\');
            out.push('b');
        } else if u == 0xc {
            out.push('\\');
            out.push('f');
        } else if u == 0xa {
            out.push('\\');
            out.push('n');
        } else if u == 0xd {
            out.push('\\');
            out.push('r');
        } else if u == 0x9 {
            out.push('\\');
            out.push('t');
        } else if u < 0x20 {
            out.push('\\');
            out.push('u');
            out.push('0');
            out.push('0');
            let hi: u32 = u / 16;
            let lo: u32 = u % 16;
            out.push(hex_digit_char(hi));
            out.push(hex_digit_char(lo));
        } else {
            out.push(c);
        }
        proof {
            assert(out@ =~= pre + spec_escape_char(c));
            assert(s@.take(i + 1).drop_last() =~= s@.take(i as int));
            assert(s@.take(i + 1).last() == c);
            assert(out@ =~= old(out)@ + spec_escape(s@.take(i + 1)));
        }
        i = i + 1;
    }
    proof {
        assert(s@.take(s@.len() as int) =~= s@);
    }
}

/// The lower-case hex digit for `d`.
fn hex_digit_char(d: u32) -> (c: char)
    requires
        d < 16,
    ensures
        c == spec_hex_digit(d as nat),
{
    if d < 10 {
        (d + 0x30) as u8 as char
    } else {
        (d - 10 + 0x61) as u8 as char
    }
}

// --- emitting ---

/// The compact serialized form of `v`, with no whitespace between tokens.
pub open spec fn spec_emit(v: Json) -> Seq<char>
    decreases v,
{
    match v {
        Json::Null => seq!['n', 'u', 'l', 'l'],
        Json::Bool(b) => if b {
            seq!['t', 'r', 'u', 'e']
        } else {
            seq!['f', 'a', 'l', 's', 'e']
        },
        Json::Num(raw) => raw@,
        Json::Str(s) => seq!['"'] + spec_escape(s@) + seq!['"'],
        Json::Arr(items) => seq!['['] + spec_emit_items(items@, 0) + seq![']'],
        Json::Obj(fields) => seq!['{'] + spec_emit_fields(fields@, 0) + seq!['}'],
    }
}

/// The comma-separated serialization of `items[k..]`.
pub open spec fn spec_emit_items(items: Seq<Json>, k: int) -> Seq<char>
    decreases items, items.len() - k,
{
    if k < 0 || k >= items.len() {
        Seq::empty()
    } else {
        let head = spec_emit(items[k]);
        if k == items.len() - 1 {
            head
        } else {
            head + seq![','] + spec_emit_items(items, k + 1)
        }
    }
}

/// The comma-separated serialization of the key/value pairs `fields[k..]`.
pub open spec fn spec_emit_fields(fields: Seq<(Vec<char>, Json)>, k: int) -> Seq<char>
    decreases fields, fields.len() - k,
{
    if k < 0 || k >= fields.len() {
        Seq::empty()
    } else {
        let head = seq!['"'] + spec_escape(fields[k].0@) + seq!['"', ':'] + spec_emit(fields[k].1);
        if k == fields.len() - 1 {
            head
        } else {
            head + seq![','] + spec_emit_fields(fields, k + 1)
        }
    }
}

/// Append the compact serialization of `v` to `out`.
#[verifier::rlimit(60)]
#[verifier::spinoff_prover]
pub fn push_json(out: &mut Vec<char>, v: &Json)
    ensures
        final(out)@ == old(out)@ + spec_emit(*v),
    decreases *v,
{
    match v {
        Json::Null => {
            out.push('n');
            out.push('u');
            out.push('l');
            out.push('l');
            proof {
                assert(out@ =~= old(out)@ + spec_emit(*v));
            }
        },
        Json::Bool(b) => {
            if *b {
                out.push('t');
                out.push('r');
                out.push('u');
                out.push('e');
            } else {
                out.push('f');
                out.push('a');
                out.push('l');
                out.push('s');
                out.push('e');
            }
            proof {
                assert(out@ =~= old(out)@ + spec_emit(*v));
            }
        },
        Json::Num(raw) => {
            let mut i: usize = 0;
            while i < raw.len()
                invariant
                    0 <= i <= raw@.len(),
                    out@ == old(out)@ + raw@.take(i as int),
                decreases raw@.len() - i,
            {
                let ghost pre = out@;
                out.push(raw[i]);
                proof {
                    assert(raw@.take(i + 1) =~= raw@.take(i as int) + seq![raw@[i as int]]);
                }
                i = i + 1;
            }
            proof {
                assert(raw@.take(raw@.len() as int) =~= raw@);
                assert(out@ =~= old(out)@ + spec_emit(*v));
            }
        },
        Json::Str(s) => {
            out.push('"');
            push_escaped(out, s);
            out.push('"');
            proof {
                assert(out@ =~= old(out)@ + spec_emit(*v));
            }
        },
        Json::Arr(items) => {
            out.push('[');
            let mut k: usize = 0;
            while k < items.len()
                invariant
                    0 <= k <= items@.len(),
                    out@ + spec_emit_items(items@, k as int) == old(out)@ + seq!['[']
                        + spec_emit_items(items@, 0),
                decreases items@.len() - k,
            {
                let ghost pre = out@;
                push_json(out, &items[k]);
                if k + 1 < items.len() {
                    out.push(',');
                    proof {
                        assert(spec_emit_items(items@, k as int) == spec_emit(items@[k as int])
                            + seq![','] + spec_emit_items(items@, k + 1));
                        assert(out@ + spec_emit_items(items@, k + 1) =~= pre + spec_emit_items(
                            items@,
                            k as int,
                        ));
                    }
                } else {
                    proof {
                        assert(spec_emit_items(items@, k as int) == spec_emit(items@[k as int]));
                        assert(spec_emit_items(items@, k + 1) =~= Seq::<char>::empty());
                        assert(out@ + spec_emit_items(items@, k + 1) =~= pre + spec_emit_items(
                            items@,
                            k as int,
                        ));
                    }
                }
                k = k + 1;
            }
            proof {
                assert(spec_emit_items(items@, items@.len() as int) =~= Seq::<char>::empty());
                assert(out@ =~= out@ + spec_emit_items(items@, items@.len() as int));
            }
            out.push(']');
            proof {
                assert(out@ =~= old(out)@ + spec_emit(*v));
            }
        },
        Json::Obj(fields) => {
            out.push('{');
            let mut k: usize = 0;
            while k < fields.len()
                invariant
                    0 <= k <= fields@.len(),
                    out@ + spec_emit_fields(fields@, k as int) == old(out)@ + seq!['{']
                        + spec_emit_fields(fields@, 0),
                decreases fields@.len() - k,
            {
                let ghost pre = out@;
                out.push('"');
                push_escaped(out, &fields[k].0);
                out.push('"');
                out.push(':');
                push_json(out, &fields[k].1);
                proof {
                    let head = seq!['"'] + spec_escape(fields@[k as int].0@) + seq!['"', ':']
                        + spec_emit(fields@[k as int].1);
                    assert(out@ =~= pre + head);
                }
                if k + 1 < fields.len() {
                    out.push(',');
                    proof {
                        let head = seq!['"'] + spec_escape(fields@[k as int].0@) + seq!['"', ':']
                            + spec_emit(fields@[k as int].1);
                        assert(spec_emit_fields(fields@, k as int) == head + seq![',']
                            + spec_emit_fields(fields@, k + 1));
                        assert(out@ + spec_emit_fields(fields@, k + 1) =~= pre + spec_emit_fields(
                            fields@,
                            k as int,
                        ));
                    }
                } else {
                    proof {
                        let head = seq!['"'] + spec_escape(fields@[k as int].0@) + seq!['"', ':']
                            + spec_emit(fields@[k as int].1);
                        assert(spec_emit_fields(fields@, k as int) == head);
                        assert(spec_emit_fields(fields@, k + 1) =~= Seq::<char>::empty());
                        assert(out@ + spec_emit_fields(fields@, k + 1) =~= pre + spec_emit_fields(
                            fields@,
                            k as int,
                        ));
                    }
                }
                k = k + 1;
            }
            proof {
                assert(spec_emit_fields(fields@, fields@.len() as int) =~= Seq::<char>::empty());
                assert(out@ =~= out@ + spec_emit_fields(fields@, fields@.len() as int));
            }
            out.push('}');
            proof {
                assert(out@ =~= old(out)@ + spec_emit(*v));
            }
        },
    }
}

/// The compact serialization of `v` as a fresh vector.
pub fn emit_json(v: &Json) -> (out: Vec<char>)
    ensures
        out@ == spec_emit(*v),
{
    let mut out: Vec<char> = Vec::new();
    push_json(&mut out, v);
    proof {
        assert(out@ =~= spec_emit(*v));
    }
    out
}

// --- the mathematical document model ---

/// The mathematical counterpart of [`Json`], used in contracts.
pub enum JsonSpec {
    Null,
    Bool(bool),
    Num(Seq<char>),
    Str(Seq<char>),
    Arr(Seq<JsonSpec>),
    Obj(Seq<(Seq<char>, JsonSpec)>),
}

pub open spec fn view_items(items: Seq<Json>, k: int) -> Seq<JsonSpec>
    decreases items, items.len() - k,
{
    if k < 0 || k >= items.len() {
        Seq::empty()
    } else {
        seq![items[k]@] + view_items(items, k + 1)
    }
}

pub open spec fn view_fields(fields: Seq<(Vec<char>, Json)>, k: int) -> Seq<(Seq<char>, JsonSpec)>
    decreases fields, fields.len() - k,
{
    if k < 0 || k >= fields.len() {
        Seq::empty()
    } else {
        seq![(fields[k].0@, fields[k].1@)] + view_fields(fields, k + 1)
    }
}

impl View for Json {
    type V = JsonSpec;

    open spec fn view(&self) -> JsonSpec
        decreases self,
    {
        match self {
            Json::Null => JsonSpec::Null,
            Json::Bool(b) => JsonSpec::Bool(*b),
            Json::Num(raw) => JsonSpec::Num(raw@),
            Json::Str(s) => JsonSpec::Str(s@),
            Json::Arr(items) => JsonSpec::Arr(view_items(items@, 0)),
            Json::Obj(fields) => JsonSpec::Obj(view_fields(fields@, 0)),
        }
    }
}

// --- parsing: whitespace and small scanners ---

/// JSON's four whitespace characters.
pub open spec fn spec_is_json_ws(c: char) -> bool {
    let u = c as u32;
    u == 0x20 || u == 0x9 || u == 0xa || u == 0xd
}

/// The first position at or after `i` that does not hold JSON whitespace.
pub open spec fn spec_skip_ws(s: Seq<char>, i: int) -> int
    decreases s.len() - i,
{
    if 0 <= i < s.len() && spec_is_json_ws(s[i]) {
        spec_skip_ws(s, i + 1)
    } else {
        i
    }
}

pub proof fn lemma_skip_ws_bounds(s: Seq<char>, i: int)
    requires
        0 <= i <= s.len(),
    ensures
        i <= spec_skip_ws(s, i) <= s.len(),
    decreases s.len() - i,
{
    if i < s.len() && spec_is_json_ws(s[i]) {
        lemma_skip_ws_bounds(s, i + 1);
    }
}

/// Skipping whitespace stops at the end or on a non-whitespace character.
pub proof fn lemma_skip_ws_stops(s: Seq<char>, i: int)
    requires
        0 <= i <= s.len(),
    ensures
        i <= spec_skip_ws(s, i) <= s.len(),
        spec_skip_ws(s, i) < s.len() ==> !spec_is_json_ws(s[spec_skip_ws(s, i)]),
    decreases s.len() - i,
{
    if i < s.len() && spec_is_json_ws(s[i]) {
        lemma_skip_ws_stops(s, i + 1);
    }
}

/// Advance past JSON whitespace.
pub fn skip_ws(s: &Vec<char>, i: usize) -> (r: usize)
    requires
        i <= s@.len(),
    ensures
        r == spec_skip_ws(s@, i as int),
        i <= r <= s@.len(),
{
    let mut j: usize = i;
    while j < s.len() && is_json_ws(s[j])
        invariant
            i <= j <= s@.len(),
            spec_skip_ws(s@, i as int) == spec_skip_ws(s@, j as int),
        decreases s@.len() - j,
    {
        j = j + 1;
    }
    j
}

/// JSON whitespace test.
fn is_json_ws(c: char) -> (b: bool)
    ensures
        b == spec_is_json_ws(c),
{
    let u = c as u32;
    u == 0x20 || u == 0x9 || u == 0xa || u == 0xd
}

/// The value of a hexadecimal digit, if `c` is one.
pub open spec fn spec_hex_val(c: char) -> Option<nat> {
    let u = c as u32;
    if 0x30 <= u && u <= 0x39 {
        Some((u - 0x30) as nat)
    } else if 0x61 <= u && u <= 0x66 {
        Some((u - 0x61 + 10) as nat)
    } else if 0x41 <= u && u <= 0x46 {
        Some((u - 0x41 + 10) as nat)
    } else {
        None
    }
}

/// The value of the four hex digits at `s[i..i+4]`, if they are hex digits.
pub open spec fn spec_hex4(s: Seq<char>, i: int) -> Option<nat> {
    if 0 <= i && i + 4 <= s.len() {
        match (spec_hex_val(s[i]), spec_hex_val(s[i + 1]), spec_hex_val(s[i + 2]), spec_hex_val(
            s[i + 3],
        )) {
            (Some(a), Some(b), Some(c), Some(d)) => Some(a * 0x1000 + b * 0x100 + c * 16 + d),
            _ => None,
        }
    } else {
        None
    }
}

fn hex_val(c: char) -> (r: Option<u32>)
    ensures
        match r {
            Some(v) => spec_hex_val(c) == Some(v as nat) && v < 16,
            None => spec_hex_val(c) is None,
        },
{
    let u = c as u32;
    if 0x30 <= u && u <= 0x39 {
        Some(u - 0x30)
    } else if 0x61 <= u && u <= 0x66 {
        Some(u - 0x61 + 10)
    } else if 0x41 <= u && u <= 0x46 {
        Some(u - 0x41 + 10)
    } else {
        None
    }
}

fn hex4(s: &Vec<char>, i: usize) -> (r: Option<u32>)
    requires
        i + 4 <= s@.len(),
    ensures
        match r {
            Some(v) => spec_hex4(s@, i as int) == Some(v as nat) && v < 0x10000,
            None => spec_hex4(s@, i as int) is None,
        },
{
    let n = s.len();
    let a = hex_val(s[i]);
    let b = hex_val(s[i + 1]);
    let c = hex_val(s[i + 2]);
    let d = hex_val(s[i + 3]);
    match (a, b, c, d) {
        (Some(a), Some(b), Some(c), Some(d)) => Some(a * 0x1000 + b * 0x100 + c * 16 + d),
        _ => None,
    }
}

/// The character with scalar value `u`; meaningful only for valid scalars.
pub open spec fn spec_char_of(u: nat) -> char {
    choose|c: char| ((#[trigger] (c as u32)) as nat) == u
}

/// `spec_char_of` inverts the scalar value of any character.
pub proof fn lemma_char_of_value(c: char)
    ensures
        spec_char_of((c as u32) as nat) == c,
{
    let v = (c as u32) as nat;
    assert(exists|x: char| ((#[trigger] (x as u32)) as nat) == v) by {
        assert(((c as u32) as nat) == v);
    }
    assert(((spec_char_of(v) as u32) as nat) == v);
}

/// Relies on `char::from_u32`: `Some` exactly for valid scalar values, and
/// the returned character has the given value.
pub assume_specification[ char::from_u32 ](v: u32) -> (r: Option<char>)
    ensures
        match r {
            Some(c) => c as u32 == v,
            None => v >= 0x110000 || (0xD800 <= v && v < 0xE000),
        },
        (v < 0xD800 || (0xE000 <= v && v < 0x110000)) ==> r is Some,
;

// --- parsing: string bodies ---

/// Parse the body of a string literal starting at `i` (just after the opening
/// quote), with `acc` the characters decoded so far. Yields the decoded body
/// and the index after the closing quote. Escapes follow JSON exactly,
/// including surrogate pairs; unpaired surrogates and raw control characters
/// are rejected.
pub open spec fn spec_parse_string_body(s: Seq<char>, i: int, acc: Seq<char>) -> Option<
    (Seq<char>, int),
>
    decreases s.len() - i,
{
    if !(0 <= i < s.len()) {
        None
    } else {
        let c = s[i];
        let u = c as u32;
        if u == 0x22 {
            Some((acc, i + 1))
        } else if u == 0x5c {
            if !(i + 1 < s.len()) {
                None
            } else {
                let e = s[i + 1];
                let eu = e as u32;
                if eu == 0x22 {
                    spec_parse_string_body(s, i + 2, acc.push('"'))
                } else if eu == 0x5c {
                    spec_parse_string_body(s, i + 2, acc.push('\\'))
                } else if eu == 0x2f {
                    spec_parse_string_body(s, i + 2, acc.push('/'))
                } else if eu == 0x62 {
                    spec_parse_string_body(s, i + 2, acc.push('\u{8}'))
                } else if eu == 0x66 {
                    spec_parse_string_body(s, i + 2, acc.push('\u{c}'))
                } else if eu == 0x6e {
                    spec_parse_string_body(s, i + 2, acc.push('\n'))
                } else if eu == 0x72 {
                    spec_parse_string_body(s, i + 2, acc.push('\r'))
                } else if eu == 0x74 {
                    spec_parse_string_body(s, i + 2, acc.push('\t'))
                } else if eu == 0x75 {
                    if i + 6 > s.len() {
                        None
                    } else {
                        match spec_hex4(s, i + 2) {
                            None => None,
                            Some(h) => if 0xD800 <= h && h < 0xDC00 {
                                if i + 12 > s.len() || s[i + 6] as u32 != 0x5c || s[i + 7] as u32
                                    != 0x75 {
                                    None
                                } else {
                                    match spec_hex4(s, i + 8) {
                                        None => None,
                                        Some(h2) => if 0xDC00 <= h2 && h2 < 0xE000 {
                                            spec_parse_string_body(
                                                s,
                                                i + 12,
                                                acc.push(
                                                    spec_char_of(
                                                        (0x10000 + (h - 0xD800) * 0x400 + (h2
                                                            - 0xDC00)) as nat,
                                                    ),
                                                ),
                                            )
                                        } else {
                                            None
                                        },
                                    }
                                }
                            } else if 0xDC00 <= h && h < 0xE000 {
                                None
                            } else {
                                spec_parse_string_body(s, i + 6, acc.push(spec_char_of(h)))
                            },
                        }
                    }
                } else {
                    None
                }
            }
        } else if u < 0x20 {
            None
        } else {
            spec_parse_string_body(s, i + 1, acc.push(c))
        }
    }
}

/// Decode a string-literal body, starting just after the opening quote.
#[verifier::rlimit(60)]
fn parse_string_body(s: &Vec<char>, i: usize) -> (r: Option<(Vec<char>, usize)>)
    requires
        i <= s@.len(),
    ensures
        match r {
            Some((txt, next)) => spec_parse_string_body(s@, i as int, Seq::empty()) == Some(
                (txt@, next as int),
            ) && i <= next <= s@.len(),
            None => spec_parse_string_body(s@, i as int, Seq::empty()) is None,
        },
{
    let mut acc: Vec<char> = Vec::new();
    let mut j: usize = i;
    loop
        invariant
            i <= j <= s@.len(),
            spec_parse_string_body(s@, i as int, Seq::empty()) == spec_parse_string_body(
                s@,
                j as int,
                acc@,
            ),
        decreases s@.len() - j,
    {
        if j >= s.len() {
            return None;
        }
        let c = s[j];
        let u = c as u32;
        if u == 0x22 {
            return Some((acc, j + 1));
        } else if u == 0x5c {
            if s.len() - j <= 1 {
                return None;
            }
            let e = s[j + 1];
            let eu = e as u32;
            if eu == 0x22 {
                acc.push('"');
                j = j + 2;
            } else if eu == 0x5c {
                acc.push('\\');
                j = j + 2;
            } else if eu == 0x2f {
                acc.push('/');
                j = j + 2;
            } else if eu == 0x62 {
                acc.push('\u{8}');
                j = j + 2;
            } else if eu == 0x66 {
                acc.push('\u{c}');
                j = j + 2;
            } else if eu == 0x6e {
                acc.push('\n');
                j = j + 2;
            } else if eu == 0x72 {
                acc.push('\r');
                j = j + 2;
            } else if eu == 0x74 {
                acc.push('\t');
                j = j + 2;
            } else if eu == 0x75 {
                if s.len() - j < 6 {
                    return None;
                }
                let h = match hex4(s, j + 2) {
                    Some(h) => h,
                    None => {
                        return None;
                    },
                };
                if 0xD800 <= h && h < 0xDC00 {
                    if s.len() - j < 12 || s[j + 6] as u32 != 0x5c || s[j + 7] as u32 != 0x75 {
                        return None;
                    }
                    let h2 = match hex4(s, j + 8) {
                        Some(h2) => h2,
                        None => {
                            return None;
                        },
                    };
                    if !(0xDC00 <= h2 && h2 < 0xE000) {
                        return None;
                    }
                    let code: u32 = 0x10000 + (h - 0xD800) * 0x400 + (h2 - 0xDC00);
                    let decoded = match char::from_u32(code) {
                        Some(d) => d,
                        None => {
                            proof {
                                assert(false);
                            }
                            return None;
                        },
                    };
                    proof {
                        lemma_char_of_value(decoded);
                        assert(spec_char_of(code as nat) == decoded);
                    }
                    acc.push(decoded);
                    j = j + 12;
                } else if 0xDC00 <= h && h < 0xE000 {
                    return None;
                } else {
                    let decoded = match char::from_u32(h) {
                        Some(d) => d,
                        None => {
                            proof {
                                assert(false);
                            }
                            return None;
                        },
                    };
                    proof {
                        lemma_char_of_value(decoded);
                        assert(spec_char_of(h as nat) == decoded);
                    }
                    acc.push(decoded);
                    j = j + 6;
                }
            } else {
                return None;
            }
        } else if u < 0x20 {
            return None;
        } else {
            acc.push(c);
            j = j + 1;
        }
    }
}

// --- parsing: numbers ---

/// The first position at or after `i` that does not hold an ASCII digit.
pub open spec fn spec_scan_digits(s: Seq<char>, i: int) -> int
    decreases s.len() - i,
{
    if 0 <= i < s.len() && spec_is_digit(s[i]) {
        spec_scan_digits(s, i + 1)
    } else {
        i
    }
}

pub proof fn lemma_scan_digits_bounds(s: Seq<char>, i: int)
    requires
        0 <= i <= s.len(),
    ensures
        i <= spec_scan_digits(s, i) <= s.len(),
    decreases s.len() - i,
{
    if i < s.len() && spec_is_digit(s[i]) {
        lemma_scan_digits_bounds(s, i + 1);
    }
}

/// Advance past ASCII digits.
fn scan_digits(s: &Vec<char>, i: usize) -> (r: usize)
    requires
        i <= s@.len(),
    ensures
        r == spec_scan_digits(s@, i as int),
        i <= r <= s@.len(),
{
    let mut j: usize = i;
    while j < s.len() && is_digit(s[j])
        invariant
            i <= j <= s@.len(),
            spec_scan_digits(s@, i as int) == spec_scan_digits(s@, j as int),
        decreases s@.len() - j,
    {
        j = j + 1;
    }
    j
}

/// The end of the number token starting at `i`, following the JSON grammar:
/// an optional minus sign, an integer part without leading zeros, an
/// optional fraction, an optional exponent.
pub open spec fn spec_parse_number_end(s: Seq<char>, i: int) -> Option<int> {
    let j0 = if 0 <= i < s.len() && s[i] == '-' {
        i + 1
    } else {
        i
    };
    if !(0 <= j0 < s.len() && spec_is_digit(s[j0])) {
        None
    } else {
        let int_end = if s[j0] == '0' {
            j0 + 1
        } else {
            spec_scan_digits(s, j0)
        };
        if int_end < s.len() && s[int_end] == '.' {
            let frac_end = spec_scan_digits(s, int_end + 1);
            if frac_end == int_end + 1 {
                None
            } else {
                spec_parse_exp_end(s, frac_end)
            }
        } else {
            spec_parse_exp_end(s, int_end)
        }
    }
}

/// The end of an optional exponent part starting at `i`.
pub open spec fn spec_parse_exp_end(s: Seq<char>, i: int) -> Option<int> {
    if 0 <= i < s.len() && (s[i] == 'e' || s[i] == 'E') {
        let k = if i + 1 < s.len() && (s[i + 1] == '+' || s[i + 1] == '-') {
            i + 2
        } else {
            i + 1
        };
        let e_end = spec_scan_digits(s, k);
        if e_end == k {
            None
        } else {
            Some(e_end)
        }
    } else {
        Some(i)
    }
}

fn parse_exp_end(s: &Vec<char>, i: usize) -> (r: Option<usize>)
    requires
        i <= s@.len(),
    ensures
        match r {
            Some(end) => spec_parse_exp_end(s@, i as int) == Some(end as int) && i <= end
                <= s@.len(),
            None => spec_parse_exp_end(s@, i as int) is None,
        },
{
    if i < s.len() && (s[i] == 'e' || s[i] == 'E') {
        let k: usize = if i + 1 < s.len() && (s[i + 1] == '+' || s[i + 1] == '-') {
            i + 2
        } else {
            i + 1
        };
        let e_end = scan_digits(s, k);
        if e_end == k {
            None
        } else {
            Some(e_end)
        }
    } else {
        Some(i)
    }
}

/// Scan a number token; `i` must sit on its first character.
fn parse_number_end(s: &Vec<char>, i: usize) -> (r: Option<usize>)
    requires
        i <= s@.len(),
    ensures
        match r {
            Some(end) => spec_parse_number_end(s@, i as int) == Some(end as int) && i <= end
                <= s@.len(),
            None => spec_parse_number_end(s@, i as int) is None,
        },
{
    let j0: usize = if i < s.len() && s[i] == '-' {
        i + 1
    } else {
        i
    };
    if !(j0 < s.len() && is_digit(s[j0])) {
        return None;
    }
    let int_end: usize = if s[j0] == '0' {
        j0 + 1
    } else {
        scan_digits(s, j0)
    };
    if int_end < s.len() && s[int_end] == '.' {
        let frac_end = scan_digits(s, int_end + 1);
        if frac_end == int_end + 1 {
            None
        } else {
            parse_exp_end(s, frac_end)
        }
    } else {
        parse_exp_end(s, int_end)
    }
}

// --- parsing: values ---

/// The nesting limit for arrays and objects, as a recursion guard.
pub const MAX_DEPTH: u32 = 128;

/// Parse one JSON value starting at `i` (whitespace allowed first), with a
/// nesting allowance `depth` and a step allowance `fuel`. Yields the value
/// and the index just after it.
pub open spec fn spec_parse_value(s: Seq<char>, i: int, depth: nat, fuel: nat) -> Option<
    (JsonSpec, int),
>
    decreases fuel,
{
    if fuel == 0 {
        None
    } else {
        let j = spec_skip_ws(s, i);
        if !(0 <= j < s.len()) {
            None
        } else {
            let c = s[j];
            if c == 'n' {
                if spec_match_at(s, seq!['n', 'u', 'l', 'l'], j) {
                    Some((JsonSpec::Null, j + 4))
                } else {
                    None
                }
            } else if c == 't' {
                if spec_match_at(s, seq!['t', 'r', 'u', 'e'], j) {
                    Some((JsonSpec::Bool(true), j + 4))
                } else {
                    None
                }
            } else if c == 'f' {
                if spec_match_at(s, seq!['f', 'a', 'l', 's', 'e'], j) {
                    Some((JsonSpec::Bool(false), j + 5))
                } else {
                    None
                }
            } else if c == '"' {
                match spec_parse_string_body(s, j + 1, Seq::empty()) {
                    Some((txt, k)) => Some((JsonSpec::Str(txt), k)),
                    None => None,
                }
            } else if c == '-' || spec_is_digit(c) {
                match spec_parse_number_end(s, j) {
                    Some(end) => Some((JsonSpec::Num(s.subrange(j, end)), end)),
                    None => None,
                }
            } else if c == '[' {
                if depth == 0 {
                    None
                } else {
                    let k = spec_skip_ws(s, j + 1);
                    if 0 <= k < s.len() && s[k] == ']' {
                        Some((JsonSpec::Arr(Seq::empty()), k + 1))
                    } else {
                        spec_parse_arr_items(
                            s,
                            j + 1,
                            (depth - 1) as nat,
                            (fuel - 1) as nat,
                            Seq::empty(),
                        )
                    }
                }
            } else if c == '{' {
                if depth == 0 {
                    None
                } else {
                    let k = spec_skip_ws(s, j + 1);
                    if 0 <= k < s.len() && s[k] == '}' {
                        Some((JsonSpec::Obj(Seq::empty()), k + 1))
                    } else {
                        spec_parse_obj_items(
                            s,
                            j + 1,
                            (depth - 1) as nat,
                            (fuel - 1) as nat,
                            Seq::empty(),
                        )
                    }
                }
            } else {
                None
            }
        }
    }
}

/// Parse the elements of a non-empty array, `acc` holding those already read.
pub open spec fn spec_parse_arr_items(
    s: Seq<char>,
    i: int,
    depth: nat,
    fuel: nat,
    acc: Seq<JsonSpec>,
) -> Option<(JsonSpec, int)>
    decreases fuel,
{
    if fuel == 0 {
        None
    } else {
        match spec_parse_value(s, i, depth, (fuel - 1) as nat) {
            None => None,
            Some((v, j)) => {
                let k = spec_skip_ws(s, j);
                if 0 <= k < s.len() && s[k] == ',' {
                    spec_parse_arr_items(s, k + 1, depth, (fuel - 1) as nat, acc.push(v))
                } else if 0 <= k < s.len() && s[k] == ']' {
                    Some((JsonSpec::Arr(acc.push(v)), k + 1))
                } else {
                    None
                }
            },
        }
    }
}

/// Parse the members of a non-empty object, `acc` holding those already read.
pub open spec fn spec_parse_obj_items(
    s: Seq<char>,
    i: int,
    depth: nat,
    fuel: nat,
    acc: Seq<(Seq<char>, JsonSpec)>,
) -> Option<(JsonSpec, int)>
    decreases fuel,
{
    if fuel == 0 {
        None
    } else {
        let k0 = spec_skip_ws(s, i);
        if !(0 <= k0 < s.len() && s[k0] == '"') {
            None
        } else {
            match spec_parse_string_body(s, k0 + 1, Seq::empty()) {
                None => None,
                Some((key, j1)) => {
                    let k1 = spec_skip_ws(s, j1);
                    if !(0 <= k1 < s.len() && s[k1] == ':') {
                        None
                    } else {
                        match spec_parse_value(s, k1 + 1, depth, (fuel - 1) as nat) {
                            None => None,
                            Some((v, j2)) => {
                                let k2 = spec_skip_ws(s, j2);
                                if 0 <= k2 < s.len() && s[k2] == ',' {
                                    spec_parse_obj_items(
                                        s,
                                        k2 + 1,
                                        depth,
                                        (fuel - 1) as nat,
                                        acc.push((key, v)),
                                    )
                                } else if 0 <= k2 < s.len() && s[k2] == '}' {
                                    Some((JsonSpec::Obj(acc.push((key, v))), k2 + 1))
                                } else {
                                    None
                                }
                            },
                        }
                    }
                }
            }
        }
    }
}

/// Appending an element extends the viewed sequence.
pub proof fn lemma_view_items_push(items: Seq<Json>, x: Json, k: int)
    requires
        0 <= k <= items.len(),
    ensures
        view_items(items.push(x), k) == view_items(items, k).push(x@),
    decreases items.len() - k,
{
    if k < items.len() {
        lemma_view_items_push(items, x, k + 1);
        assert(items.push(x)[k] == items[k]);
        assert(view_items(items.push(x), k) == seq![items.push(x)[k]@] + view_items(
            items.push(x),
            k + 1,
        ));
        assert(view_items(items, k) == seq![items[k]@] + view_items(items, k + 1));
        assert(seq![items[k]@] + view_items(items, k + 1).push(x@) =~= (seq![items[k]@]
            + view_items(items, k + 1)).push(x@));
        assert(view_items(items.push(x), k) =~= view_items(items, k).push(x@));
    } else {
        assert(items.push(x)[k] == x);
        assert(k + 1 >= items.push(x).len());
        assert(view_items(items.push(x), k + 1) =~= Seq::<JsonSpec>::empty());
        assert(view_items(items.push(x), k) =~= seq![x@]);
        assert(view_items(items, k) =~= Seq::<JsonSpec>::empty());
        assert(view_items(items, k).push(x@) =~= seq![x@]);
    }
}

pub proof fn lemma_view_fields_push(fields: Seq<(Vec<char>, Json)>, key: Vec<char>, x: Json, k: int)
    requires
        0 <= k <= fields.len(),
    ensures
        view_fields(fields.push((key, x)), k) == view_fields(fields, k).push((key@, x@)),
    decreases fields.len() - k,
{
    if k < fields.len() {
        lemma_view_fields_push(fields, key, x, k + 1);
        assert(fields.push((key, x))[k] == fields[k]);
        assert(view_fields(fields.push((key, x)), k) == seq![
            (fields.push((key, x))[k].0@, fields.push((key, x))[k].1@),
        ] + view_fields(fields.push((key, x)), k + 1));
        assert(view_fields(fields, k) == seq![(fields[k].0@, fields[k].1@)] + view_fields(
            fields,
            k + 1,
        ));
        assert(seq![(fields[k].0@, fields[k].1@)] + view_fields(fields, k + 1).push((key@, x@))
            =~= (seq![(fields[k].0@, fields[k].1@)] + view_fields(fields, k + 1)).push(
            (key@, x@),
        ));
        assert(view_fields(fields.push((key, x)), k) =~= view_fields(fields, k).push((key@, x@)));
    } else {
        assert(fields.push((key, x))[k] == (key, x));
        assert(k + 1 >= fields.push((key, x)).len());
        assert(view_fields(fields.push((key, x)), k + 1) =~= Seq::<(Seq<char>, JsonSpec)>::empty());
        assert(view_fields(fields.push((key, x)), k) =~= seq![(key@, x@)]);
        assert(view_fields(fields, k) =~= Seq::<(Seq<char>, JsonSpec)>::empty());
        assert(view_fields(fields, k).push((key@, x@)) =~= seq![(key@, x@)]);
    }
}

/// Parse one JSON value; mirrors `spec_parse_value` exactly.
#[verifier::rlimit(60)]
fn parse_value(s: &Vec<char>, i: usize, depth: u32, fuel: u64) -> (r: Option<(Json, usize)>)
    requires
        i <= s@.len(),
    ensures
        match r {
            Some((v, next)) => spec_parse_value(s@, i as int, depth as nat, fuel as nat) == Some(
                (v@, next as int),
            ) && next <= s@.len(),
            None => spec_parse_value(s@, i as int, depth as nat, fuel as nat) is None,
        },
    decreases fuel, 1int,
{
    if fuel == 0 {
        return None;
    }
    let j = skip_ws(s, i);
    if j >= s.len() {
        return None;
    }
    let c = s[j];
    if c == 'n' {
        if s.len() - j >= 4 && s[j + 1] == 'u' && s[j + 2] == 'l' && s[j + 3] == 'l' {
            proof {
                assert(s@.subrange(j as int, j + 4) =~= seq!['n', 'u', 'l', 'l']);
            }
            Some((Json::Null, j + 4))
        } else {
            proof {
                if spec_match_at(s@, seq!['n', 'u', 'l', 'l'], j as int) {
                    assert(s@.subrange(j as int, j + 4)[1] == s@[j + 1]);
                    assert(s@.subrange(j as int, j + 4)[2] == s@[j + 2]);
                    assert(s@.subrange(j as int, j + 4)[3] == s@[j + 3]);
                }
            }
            None
        }
    } else if c == 't' {
        if s.len() - j >= 4 && s[j + 1] == 'r' && s[j + 2] == 'u' && s[j + 3] == 'e' {
            proof {
                assert(s@.subrange(j as int, j + 4) =~= seq!['t', 'r', 'u', 'e']);
            }
            Some((Json::Bool(true), j + 4))
        } else {
            proof {
                if spec_match_at(s@, seq!['t', 'r', 'u', 'e'], j as int) {
                    assert(s@.subrange(j as int, j + 4)[1] == s@[j + 1]);
                    assert(s@.subrange(j as int, j + 4)[2] == s@[j + 2]);
                    assert(s@.subrange(j as int, j + 4)[3] == s@[j + 3]);
                }
            }
            None
        }
    } else if c == 'f' {
        if s.len() - j >= 5 && s[j + 1] == 'a' && s[j + 2] == 'l' && s[j + 3] == 's' && s[j + 4]
            == 'e' {
            proof {
                assert(s@.subrange(j as int, j + 5) =~= seq!['f', 'a', 'l', 's', 'e']);
            }
            Some((Json::Bool(false), j + 5))
        } else {
            proof {
                if spec_match_at(s@, seq!['f', 'a', 'l', 's', 'e'], j as int) {
                    assert(s@.subrange(j as int, j + 5)[1] == s@[j + 1]);
                    assert(s@.subrange(j as int, j + 5)[2] == s@[j + 2]);
                    assert(s@.subrange(j as int, j + 5)[3] == s@[j + 3]);
                    assert(s@.subrange(j as int, j + 5)[4] == s@[j + 4]);
                }
            }
            None
        }
    } else if c == '"' {
        match parse_string_body(s, j + 1) {
            Some((txt, k)) => Some((Json::Str(txt), k)),
            None => None,
        }
    } else if c == '-' || is_digit(c) {
        match parse_number_end(s, j) {
            Some(end) => {
                let raw = slice_range(s, j, end);
                Some((Json::Num(raw), end))
            },
            None => None,
        }
    } else if c == '[' {
        if depth == 0 {
            return None;
        }
        let k = skip_ws(s, j + 1);
        if k < s.len() && s[k] == ']' {
            return Some((Json::Arr(Vec::new()), k + 1));
        }
        parse_arr_items(s, j + 1, depth - 1, fuel - 1)
    } else if c == '{' {
        if depth == 0 {
            return None;
        }
        let k = skip_ws(s, j + 1);
        if k < s.len() && s[k] == '}' {
            return Some((Json::Obj(Vec::new()), k + 1));
        }
        parse_obj_items(s, j + 1, depth - 1, fuel - 1)
    } else {
        None
    }
}

/// Parse the elements of a non-empty array; mirrors `spec_parse_arr_items`.
#[verifier::rlimit(60)]
fn parse_arr_items(s: &Vec<char>, i: usize, depth: u32, fuel: u64) -> (r: Option<(Json, usize)>)
    requires
        i <= s@.len(),
    ensures
        match r {
            Some((v, next)) => spec_parse_arr_items(
                s@,
                i as int,
                depth as nat,
                fuel as nat,
                Seq::empty(),
            ) == Some((v@, next as int)) && next <= s@.len(),
            None => spec_parse_arr_items(
                s@,
                i as int,
                depth as nat,
                fuel as nat,
                Seq::empty(),
            ) is None,
        },
    decreases fuel, 0int,
{
    let ghost target = spec_parse_arr_items(
        s@,
        i as int,
        depth as nat,
        fuel as nat,
        Seq::empty(),
    );
    let mut acc: Vec<Json> = Vec::new();
    let mut cur: usize = i;
    let mut f: u64 = fuel;
    loop
        invariant
            cur <= s@.len(),
            f <= fuel,
            target == spec_parse_arr_items(
                s@,
                cur as int,
                depth as nat,
                f as nat,
                view_items(acc@, 0),
            ),
        decreases f,
    {
        if f == 0 {
            return None;
        }
        match parse_value(s, cur, depth, f - 1) {
            None => {
                return None;
            },
            Some((v, j2)) => {
                let k2 = skip_ws(s, j2);
                if k2 < s.len() && s[k2] == ',' {
                    proof {
                        lemma_view_items_push(acc@, v, 0);
                    }
                    acc.push(v);
                    cur = k2 + 1;
                    f = f - 1;
                } else if k2 < s.len() && s[k2] == ']' {
                    proof {
                        lemma_view_items_push(acc@, v, 0);
                    }
                    acc.push(v);
                    return Some((Json::Arr(acc), k2 + 1));
                } else {
                    return None;
                }
            },
        }
    }
}

/// Parse the members of a non-empty object; mirrors `spec_parse_obj_items`.
#[verifier::rlimit(60)]
fn parse_obj_items(s: &Vec<char>, i: usize, depth: u32, fuel: u64) -> (r: Option<(Json, usize)>)
    requires
        i <= s@.len(),
    ensures
        match r {
            Some((v, next)) => spec_parse_obj_items(
                s@,
                i as int,
                depth as nat,
                fuel as nat,
                Seq::empty(),
            ) == Some((v@, next as int)) && next <= s@.len(),
            None => spec_parse_obj_items(
                s@,
                i as int,
                depth as nat,
                fuel as nat,
                Seq::empty(),
            ) is None,
        },
    decreases fuel, 0int,
{
    let ghost target = spec_parse_obj_items(
        s@,
        i as int,
        depth as nat,
        fuel as nat,
        Seq::empty(),
    );
    let mut acc: Vec<(Vec<char>, Json)> = Vec::new();
    let mut cur: usize = i;
    let mut f: u64 = fuel;
    loop
        invariant
            cur <= s@.len(),
            f <= fuel,
            target == spec_parse_obj_items(
                s@,
                cur as int,
                depth as nat,
                f as nat,
                view_fields(acc@, 0),
            ),
        decreases f,
    {
        if f == 0 {
            return None;
        }
        let k0 = skip_ws(s, cur);
        if !(k0 < s.len() && s[k0] == '"') {
            return None;
        }
        let (key, j1) = match parse_string_body(s, k0 + 1) {
            Some(p) => p,
            None => {
                return None;
            },
        };
        let k1 = skip_ws(s, j1);
        if !(k1 < s.len() && s[k1] == ':') {
            return None;
        }
        match parse_value(s, k1 + 1, depth, f - 1) {
            None => {
                return None;
            },
            Some((v, j2)) => {
                let k2 = skip_ws(s, j2);
                if k2 < s.len() && s[k2] == ',' {
                    proof {
                        lemma_view_fields_push(acc@, key, v, 0);
                    }
                    acc.push((key, v));
                    cur = k2 + 1;
                    f = f - 1;
                } else if k2 < s.len() && s[k2] == '}' {
                    proof {
                        lemma_view_fields_push(acc@, key, v, 0);
                    }
                    acc.push((key, v));
                    return Some((Json::Obj(acc), k2 + 1));
                } else {
                    return None;
                }
            },
        }
    }
}

/// The length bound above which a text is not parsed at all.
pub const MAX_TEXT_LEN: u64 = 0x1000_0000_0000_0000;

/// The value denoted by a whole JSON text: one value, surrounded by nothing
/// but whitespace.
pub open spec fn spec_parse_json(s: Seq<char>) -> Option<JsonSpec> {
    if s.len() >= MAX_TEXT_LEN {
        None
    } else {
        match spec_parse_value(s, 0, MAX_DEPTH as nat, (2 * s.len() + 2) as nat) {
            Some((v, end)) => if spec_skip_ws(s, end) == s.len() {
                Some(v)
            } else {
                None
            },
            None => None,
        }
    }
}

/// Parse a whole JSON text.
pub fn parse_json(s: &Vec<char>) -> (r: Option<Json>)
    ensures
        match r {
            Some(v) => spec_parse_json(s@) == Some(v@),
            None => spec_parse_json(s@) is None,
        },
{
    if s.len() as u64 >= MAX_TEXT_LEN {
        return None;
    }
    let fuel: u64 = 2 * (s.len() as u64) + 2;
    match parse_value(s, 0, MAX_DEPTH, fuel) {
        Some((v, end)) => {
            let rest = skip_ws(s, end);
            if rest == s.len() {
                Some(v)
            } else {
                None
            }
        },
        None => None,
    }
}

// --- record helpers: lookup, extraction, construction ---

/// The value of the last field named `key`; with duplicate keys the last
/// binding wins, as JSON object readers commonly resolve them.
pub open spec fn spec_obj_lookup(fields: Seq<(Seq<char>, JsonSpec)>, key: Seq<char>) -> Option<
    JsonSpec,
>
    decreases fields.len(),
{
    if fields.len() == 0 {
        None
    } else if fields.last().0 == key {
        Some(fields.last().1)
    } else {
        spec_obj_lookup(fields.drop_last(), key)
    }
}

/// Field lookup on a whole value: `None` unless it is an object with the key.
pub open spec fn spec_get(v: JsonSpec, key: Seq<char>) -> Option<JsonSpec> {
    match v {
        JsonSpec::Obj(fields) => spec_obj_lookup(fields, key),
        _ => None,
    }
}

/// Look a key up in an object's field list; the last binding wins.
pub fn obj_get<'a>(fields: &'a Vec<(Vec<char>, Json)>, key: &str) -> (r: Option<&'a Json>)
    ensures
        match r {
            Some(v) => spec_obj_lookup(view_fields(fields@, 0), key@) == Some(v@),
            None => spec_obj_lookup(view_fields(fields@, 0), key@) is None,
        },
{
    let keyv = crate::text::chars_of(key);
    let ghost vf = view_fields(fields@, 0);
    proof {
        lemma_view_fields_len(fields@, 0);
    }
    let mut k: usize = fields.len();
    proof {
        assert(vf.take(fields@.len() as int) =~= vf);
    }
    while k > 0
        invariant
            k <= fields@.len(),
            vf == view_fields(fields@, 0),
            vf.len() == fields@.len(),
            spec_obj_lookup(vf, key@) == spec_obj_lookup(vf.take(k as int), key@),
        decreases k,
    {
        proof {
            lemma_view_fields_index(fields@, 0, k - 1);
            assert(vf.take(k as int).last() == vf[k - 1]);
            assert(vf.take(k as int).drop_last() =~= vf.take(k - 1));
        }
        if crate::text::eq_chars(&fields[k - 1].0, &keyv) {
            return Some(&fields[k - 1].1);
        }
        k = k - 1;
    }
    proof {
        assert(vf.take(0) =~= Seq::<(Seq<char>, JsonSpec)>::empty());
    }
    None
}

/// `view_fields` keeps length.
pub proof fn lemma_view_fields_len(fields: Seq<(Vec<char>, Json)>, k: int)
    requires
        0 <= k <= fields.len(),
    ensures
        view_fields(fields, k).len() == fields.len() - k,
    decreases fields.len() - k,
{
    if k < fields.len() {
        lemma_view_fields_len(fields, k + 1);
        assert(view_fields(fields, k) == seq![(fields[k].0@, fields[k].1@)] + view_fields(
            fields,
            k + 1,
        ));
    } else {
        assert(view_fields(fields, k) == Seq::<(Seq<char>, JsonSpec)>::empty());
    }
}

/// `view_fields` maps positions one to one.
pub proof fn lemma_view_fields_index(fields: Seq<(Vec<char>, Json)>, k: int, m: int)
    requires
        0 <= k <= m < fields.len(),
    ensures
        view_fields(fields, k).len() == fields.len() - k,
        view_fields(fields, k)[m - k] == (fields[m].0@, fields[m].1@),
    decreases m - k,
{
    lemma_view_fields_len(fields, k);
    lemma_view_fields_len(fields, k + 1);
    assert(view_fields(fields, k) == seq![(fields[k].0@, fields[k].1@)] + view_fields(
        fields,
        k + 1,
    ));
    if k < m {
        lemma_view_fields_index(fields, k + 1, m);
        assert(view_fields(fields, k)[m - k] == view_fields(fields, k + 1)[m - k - 1]);
    }
}

/// `view_items` keeps length.
pub proof fn lemma_view_items_len(items: Seq<Json>, k: int)
    requires
        0 <= k <= items.len(),
    ensures
        view_items(items, k).len() == items.len() - k,
    decreases items.len() - k,
{
    if k < items.len() {
        lemma_view_items_len(items, k + 1);
        assert(view_items(items, k) == seq![items[k]@] + view_items(items, k + 1));
    } else {
        assert(view_items(items, k) == Seq::<JsonSpec>::empty());
    }
}

/// `view_items` maps positions one to one.
pub proof fn lemma_view_items_index(items: Seq<Json>, k: int, m: int)
    requires
        0 <= k <= m < items.len(),
    ensures
        view_items(items, k).len() == items.len() - k,
        view_items(items, k)[m - k] == items[m]@,
    decreases m - k,
{
    lemma_view_items_len(items, k);
    lemma_view_items_len(items, k + 1);
    assert(view_items(items, k) == seq![items[k]@] + view_items(items, k + 1));
    if k < m {
        lemma_view_items_index(items, k + 1, m);
        assert(view_items(items, k)[m - k] == view_items(items, k + 1)[m - k - 1]);
    }
}

// --- number readings ---

/// A number token read as an unsigned integer: defined when the token is a
/// plain digit run whose value fits in a `u64`.
pub open spec fn spec_num_u64(raw: Seq<char>) -> Option<nat> {
    if raw.len() > 0 && spec_all_digits(raw) && spec_digits_val(raw) <= u64::MAX {
        Some(spec_digits_val(raw))
    } else {
        None
    }
}

/// Read a number token as a `u64`.
pub fn num_u64(raw: &Vec<char>) -> (r: Option<u64>)
    ensures
        match r {
            Some(n) => spec_num_u64(raw@) == Some(n as nat),
            None => spec_num_u64(raw@) is None,
        },
{
    proof {
        assert(raw@.subrange(0, raw@.len() as int) =~= raw@);
    }
    parse_u64_range(raw, 0, raw.len())
}

// --- fixed-point dollar amounts ---

/// Zero-pad the decimal form of `n` on the left to six digits.
pub open spec fn spec_pad6(n: nat) -> Seq<char> {
    let d = spec_format_nat(n);
    if d.len() >= 6 {
        d
    } else {
        seq!['0', '0', '0', '0', '0'].take(6 - d.len()) + d
    }
}

/// Drop trailing zeros, but keep at least one digit.
pub open spec fn spec_trim_zeros(s: Seq<char>) -> Seq<char>
    decreases s.len(),
{
    if s.len() <= 1 {
        s
    } else if s.last() == '0' {
        spec_trim_zeros(s.drop_last())
    } else {
        s
    }
}

/// The decimal form of a micro-dollar amount: whole dollars, a point, and
/// the fraction with trailing zeros trimmed (at least one digit), matching
/// how floating-point serializers print such values.
pub open spec fn spec_format_micros(m: nat) -> Seq<char> {
    spec_format_nat(m / 1000000) + seq!['.'] + spec_trim_zeros(spec_pad6(m % 1000000))
}

/// Append the decimal form of the micro-dollar amount `m`.
pub fn push_micros(out: &mut Vec<char>, m: u64)
    ensures
        final(out)@ == old(out)@ + spec_format_micros(m as nat),
{
    push_u64(out, m / 1000000);
    out.push('.');
    let frac: u64 = m % 1000000;
    let digits = format_u64(frac);
    let mut padded: Vec<char> = Vec::new();
    let mut need: usize = 6;
    if digits.len() < 6 {
        need = 6 - digits.len();
    } else {
        need = 0;
    }
    let mut z: usize = 0;
    while z < need
        invariant
            z <= need,
            need == if digits@.len() < 6 { 6 - digits@.len() } else { 0int },
            padded@ =~= seq!['0', '0', '0', '0', '0'].take(6 - digits@.len()).take(z as int),
        decreases need - z,
    {
        padded.push('0');
        proof {
            assert(seq!['0', '0', '0', '0', '0'].take(6 - digits@.len()).take(z + 1) =~= seq![
                '0',
                '0',
                '0',
                '0',
                '0',
            ].take(6 - digits@.len()).take(z as int).push('0'));
        }
        z = z + 1;
    }
    let mut i: usize = 0;
    while i < digits.len()
        invariant
            i <= digits@.len(),
            padded@ == spec_pad6(frac as nat).take(spec_pad6(frac as nat).len() - digits@.len()
                + i),
        decreases digits@.len() - i,
    {
        padded.push(digits[i]);
        proof {
            let p = spec_pad6(frac as nat);
            assert(p.take(p.len() - digits@.len() + i + 1) =~= p.take(
                p.len() - digits@.len() + i,
            ).push(digits@[i as int]));
        }
        i = i + 1;
    }
    proof {
        assert(padded@ =~= spec_pad6(frac as nat));
    }
    let mut hi: usize = padded.len();
    while hi > 1 && padded[hi - 1] == '0'
        invariant
            1 <= hi <= padded@.len(),
            padded@.len() >= 1,
            spec_trim_zeros(padded@) == spec_trim_zeros(padded@.take(hi as int)),
        decreases hi,
    {
        proof {
            assert(padded@.take(hi as int).drop_last() =~= padded@.take(hi - 1));
        }
        hi = hi - 1;
    }
    proof {
        assert(spec_trim_zeros(padded@.take(hi as int)) == padded@.take(hi as int));
    }
    let mut k: usize = 0;
    while k < hi
        invariant
            k <= hi <= padded@.len(),
            out@ == old(out)@ + spec_format_nat((m / 1000000) as nat) + seq!['.'] + padded@.take(
                hi as int,
            ).take(k as int),
        decreases hi - k,
    {
        out.push(padded[k]);
        proof {
            assert(padded@.take(hi as int).take(k + 1) =~= padded@.take(hi as int).take(
                k as int,
            ).push(padded@[k as int]));
        }
        k = k + 1;
    }
    proof {
        assert(padded@.take(hi as int).take(hi as int) =~= padded@.take(hi as int));
        assert(out@ =~= old(out)@ + spec_format_micros(m as nat));
    }
}

/// The first position of `.` at or after `i`, or the length if none.
pub open spec fn spec_find_dot(s: Seq<char>, i: int) -> int
    decreases s.len() - i,
{
    if !(0 <= i < s.len()) {
        i
    } else if s[i] == '.' {
        i
    } else {
        spec_find_dot(s, i + 1)
    }
}

/// A run of `n` zero digits.
pub open spec fn spec_zeros(n: nat) -> Seq<char> {
    Seq::new(n, |i: int| '0')
}

pub open spec fn spec_pow10(n: nat) -> nat
    decreases n,
{
    if n == 0 {
        1
    } else {
        10 * spec_pow10((n - 1) as nat)
    }
}

/// Appending `k` zero digits multiplies the denoted value by ten to the `k`.
pub proof fn lemma_digits_val_zeros(s: Seq<char>, k: nat)
    ensures
        spec_digits_val(s + spec_zeros(k)) == spec_digits_val(s) * spec_pow10(k),
    decreases k,
{
    if k == 0 {
        assert(s + spec_zeros(0) =~= s);
        assert(spec_pow10(0) == 1);
        assert(spec_digits_val(s) * 1 == spec_digits_val(s)) by (nonlinear_arith);
    } else {
        lemma_digits_val_zeros(s, (k - 1) as nat);
        let w = s + spec_zeros(k);
        assert(w.last() == '0');
        assert(w.drop_last() =~= s + spec_zeros((k - 1) as nat));
        assert(spec_digit_val('0') == 0);
        assert(spec_digits_val(w) == spec_digits_val(s + spec_zeros((k - 1) as nat)) * 10);
        assert(spec_digits_val(s) * spec_pow10((k - 1) as nat) * 10 == spec_digits_val(s)
            * spec_pow10(k)) by (nonlinear_arith)
            requires spec_pow10(k) == 10 * spec_pow10((k - 1) as nat);
    }
}

/// Ten-to-the is monotone.
pub proof fn lemma_pow10_mono(a: nat, b: nat)
    requires
        a <= b,
    ensures
        spec_pow10(a) <= spec_pow10(b),
    decreases b,
{
    if a < b {
        lemma_pow10_mono(a, (b - 1) as nat);
        assert(spec_pow10(b) == 10 * spec_pow10((b - 1) as nat));
        assert(spec_pow10((b - 1) as nat) <= 10 * spec_pow10((b - 1) as nat)) by (nonlinear_arith);
    }
}

pub proof fn lemma_pow10_add(a: nat, b: nat)
    ensures
        spec_pow10(a) * spec_pow10(b) == spec_pow10((a + b) as nat),
    decreases b,
{
    if b == 0 {
        assert(spec_pow10(a) * 1 == spec_pow10(a)) by (nonlinear_arith);
    } else {
        lemma_pow10_add(a, (b - 1) as nat);
        assert(spec_pow10(a) * spec_pow10(b) == spec_pow10(a) * (10 * spec_pow10((b - 1) as nat)))
            by (nonlinear_arith)
            requires spec_pow10(b) == 10 * spec_pow10((b - 1) as nat);
        assert(spec_pow10(a) * (10 * spec_pow10((b - 1) as nat)) == 10 * (spec_pow10(a)
            * spec_pow10((b - 1) as nat))) by (nonlinear_arith);
    }
}

/// A digit string of length `n` denotes less than ten-to-the-`n`.
pub proof fn lemma_digits_val_upper(s: Seq<char>)
    requires
        spec_all_digits(s),
    ensures
        spec_digits_val(s) < spec_pow10(s.len()),
    decreases s.len(),
{
    if s.len() == 0 {
    } else {
        assert(spec_all_digits(s.drop_last())) by {
            assert forall|x: int| 0 <= x < s.drop_last().len() implies spec_is_digit(
                #[trigger] s.drop_last()[x],
            ) by {
                assert(s.drop_last()[x] == s[x]);
            }
        }
        lemma_digits_val_upper(s.drop_last());
        assert(spec_is_digit(s.last()));
        assert(spec_digit_val(s.last()) < 10);
        assert(spec_pow10(s.len()) == 10 * spec_pow10((s.len() - 1) as nat));
        assert(spec_digits_val(s.drop_last()) * 10 + 10 <= spec_pow10((s.len() - 1) as nat) * 10)
            by (nonlinear_arith)
            requires spec_digits_val(s.drop_last()) < spec_pow10((s.len() - 1) as nat);
    }
}

/// A number token read as micro-dollars: a non-negative plain decimal
/// (no exponent), its fraction truncated past six digits.
pub open spec fn spec_num_micros(raw: Seq<char>) -> Option<nat> {
    let dot = spec_find_dot(raw, 0);
    if dot >= raw.len() {
        if raw.len() > 0 && spec_all_digits(raw) && spec_digits_val(raw) * 1000000 <= u64::MAX {
            Some(spec_digits_val(raw) * 1000000)
        } else {
            None
        }
    } else {
        let ipart = raw.take(dot);
        let fpart = raw.subrange(dot + 1, raw.len() as int);
        if ipart.len() > 0 && fpart.len() > 0 && spec_all_digits(ipart) && spec_all_digits(fpart) {
            let f6 = if fpart.len() >= 6 {
                fpart.take(6)
            } else {
                fpart + spec_zeros((6 - fpart.len()) as nat)
            };
            let val = spec_digits_val(ipart) * 1000000 + spec_digits_val(f6);
            if val <= u64::MAX {
                Some(val)
            } else {
                None
            }
        } else {
            None
        }
    }
}

/// Read a number token as micro-dollars.
#[verifier::rlimit(60)]
pub fn num_micros(raw: &Vec<char>) -> (r: Option<u64>)
    ensures
        match r {
            Some(n) => spec_num_micros(raw@) == Some(n as nat),
            None => spec_num_micros(raw@) is None,
        },
{
    let mut dot: usize = 0;
    while dot < raw.len() && raw[dot] != '.'
        invariant
            dot <= raw@.len(),
            spec_find_dot(raw@, 0) == spec_find_dot(raw@, dot as int),
        decreases raw@.len() - dot,
    {
        dot = dot + 1;
    }
    if dot == raw.len() {
        proof {
            assert(raw@.subrange(0, raw@.len() as int) =~= raw@);
        }
        match parse_u64_range(raw, 0, raw.len()) {
            Some(n) => match n.checked_mul(1000000) {
                Some(v) => Some(v),
                None => None,
            },
            None => None,
        }
    } else {
        if dot == 0 || dot + 1 == raw.len() {
            proof {
                if dot + 1 == raw.len() {
                    assert(raw@.subrange(dot + 1, raw@.len() as int).len() == 0);
                }
            }
            return None;
        }
        let ghost ipart = raw@.take(dot as int);
        let ghost fpart = raw@.subrange(dot + 1, raw@.len() as int);
        proof {
            assert(raw@.subrange(0, dot as int) =~= ipart);
        }
        let ip = match parse_u64_range(raw, 0, dot) {
            Some(n) => n,
            None => {
                return None;
            },
        };
        // every fraction digit must be a digit, even past the first six
        let mut q: usize = dot + 1;
        while q < raw.len() && is_digit(raw[q])
            invariant
                dot + 1 <= q <= raw@.len(),
                forall|x: int| dot + 1 <= x < q ==> spec_is_digit(#[trigger] raw@[x]),
            decreases raw@.len() - q,
        {
            q = q + 1;
        }
        if q < raw.len() {
            proof {
                assert(fpart[q - dot - 1] == raw@[q as int]);
            }
            return None;
        }
        proof {
            assert forall|x: int| 0 <= x < fpart.len() implies spec_is_digit(
                #[trigger] fpart[x],
            ) by {
                assert(fpart[x] == raw@[dot + 1 + x]);
            }
        }
        let fend: usize = if raw.len() - (dot + 1) >= 6 {
            dot + 7
        } else {
            raw.len()
        };
        let fv = match parse_u64_range(raw, dot + 1, fend) {
            Some(n) => n,
            None => {
                proof {
                    let sub = raw@.subrange(dot + 1, fend as int);
                    assert forall|x: int| 0 <= x < sub.len() implies spec_is_digit(
                        #[trigger] sub[x],
                    ) by {
                        assert(sub[x] == raw@[dot + 1 + x]);
                    }
                    lemma_digits_val_upper(sub);
                    lemma_pow10_mono(sub.len(), 6);
                    assert(spec_pow10(0) == 1);
                    assert(spec_pow10(1) == 10);
                    assert(spec_pow10(2) == 100);
                    assert(spec_pow10(3) == 1000);
                    assert(spec_pow10(4) == 10000);
                    assert(spec_pow10(5) == 100000);
                    assert(spec_pow10(6) == 1000000);
                    assert(false);
                }
                return None;
            },
        };
        let pad: usize = if raw.len() - (dot + 1) >= 6 {
            0
        } else {
            6 - (raw.len() - (dot + 1))
        };
        let mult: u64 = if pad == 0 {
            1
        } else if pad == 1 {
            10
        } else if pad == 2 {
            100
        } else if pad == 3 {
            1000
        } else if pad == 4 {
            10000
        } else {
            100000
        };
        proof {
            assert(spec_pow10(0) == 1);
            assert(spec_pow10(1) == 10);
            assert(spec_pow10(2) == 100);
            assert(spec_pow10(3) == 1000);
            assert(spec_pow10(4) == 10000);
            assert(spec_pow10(5) == 100000);
            assert(mult as nat == spec_pow10(pad as nat));
        }
        let ghost f6 = if fpart.len() >= 6 {
            fpart.take(6)
        } else {
            fpart + spec_zeros((6 - fpart.len()) as nat)
        };
        proof {
            let sub = raw@.subrange(dot + 1, fend as int);
            if fpart.len() >= 6 {
                assert(sub =~= fpart.take(6));
                assert(f6 == sub);
                assert(((fv as nat) * (mult as nat)) == spec_digits_val(f6)) by (nonlinear_arith)
                    requires
                        mult == 1,
                        fv as nat == spec_digits_val(f6);
            } else {
                assert(sub =~= fpart);
                lemma_digits_val_zeros(fpart, (6 - fpart.len()) as nat);
                assert(spec_digits_val(f6) == spec_digits_val(fpart) * spec_pow10(
                    (6 - fpart.len()) as nat,
                ));
                assert(pad as nat == (6 - fpart.len()) as nat);
            }
            let sub2 = raw@.subrange(dot + 1, fend as int);
            lemma_digits_val_upper(sub2);
            lemma_pow10_add(sub2.len(), pad as nat);
            assert(sub2.len() + pad as nat == 6);
            assert(spec_pow10(0) == 1);
            assert(spec_pow10(1) == 10);
            assert(spec_pow10(2) == 100);
            assert(spec_pow10(3) == 1000);
            assert(spec_pow10(4) == 10000);
            assert(spec_pow10(5) == 100000);
            assert(spec_pow10(6) == 1000000);
            assert(((fv as nat) * (mult as nat)) < 1000000) by (nonlinear_arith)
                requires
                    (fv as nat) < spec_pow10(sub2.len()),
                    mult as nat == spec_pow10(pad as nat),
                    spec_pow10(sub2.len()) * spec_pow10(pad as nat) == 1000000;
        }
        let fmicro: u64 = fv * mult;
        match ip.checked_mul(1000000) {
            Some(a) => match a.checked_add(fmicro) {
                Some(v) => Some(v),
                None => None,
            },
            None => None,
        }
    }
}

// --- reading back what the fixed-point formatter wrote ---

/// `spec_zeros` denotes zero.
proof fn lemma_zeros_val(k: nat)
    ensures
        spec_digits_val(spec_zeros(k)) == 0,
        spec_all_digits(spec_zeros(k)),
    decreases k,
{
    if k > 0 {
        lemma_zeros_val((k - 1) as nat);
        assert(spec_zeros(k).drop_last() =~= spec_zeros((k - 1) as nat));
        assert(spec_zeros(k).last() == '0');
        assert(spec_digit_val('0') == 0);
    }
}

/// Leading zeros do not change a digit string's value.
proof fn lemma_leading_zeros_val(z: Seq<char>, s: Seq<char>)
    requires
        forall|i: int| 0 <= i < z.len() ==> z[i] == '0',
    ensures
        spec_digits_val(z + s) == spec_digits_val(s),
    decreases s.len(),
{
    if s.len() == 0 {
        assert(z + s =~= z);
        assert(z =~= spec_zeros(z.len()));
        lemma_zeros_val(z.len());
    } else {
        lemma_leading_zeros_val(z, s.drop_last());
        assert((z + s).drop_last() =~= z + s.drop_last());
        assert((z + s).last() == s.last());
    }
}

/// A number below ten-to-the-`k` prints in at most `k` digits.
proof fn lemma_format_len_le(n: nat, k: nat)
    requires
        k >= 1,
        n < spec_pow10(k),
    ensures
        spec_format_nat(n).len() <= k,
    decreases k,
{
    if n < 10 {
    } else {
        assert(spec_pow10(k) == 10 * spec_pow10((k - 1) as nat));
        assert(n / 10 < spec_pow10((k - 1) as nat)) by (nonlinear_arith)
            requires
                n < 10 * spec_pow10((k - 1) as nat),
                n >= 10;
        assert((k - 1) as nat >= 1) by {
            if k == 1 {
                assert(spec_pow10(1) == 10);
            }
        }
        lemma_format_len_le(n / 10, (k - 1) as nat);
    }
}

/// The padded fraction has exactly six digits, all of them digits.
proof fn lemma_pad6_shape(f: nat)
    requires
        f < 1000000,
    ensures
        spec_pad6(f).len() == 6,
        spec_all_digits(spec_pad6(f)),
        spec_digits_val(spec_pad6(f)) == f,
{
    lemma_format_nat_val(f);
    assert(spec_pow10(0) == 1);
    assert(spec_pow10(1) == 10);
    assert(spec_pow10(2) == 100);
    assert(spec_pow10(3) == 1000);
    assert(spec_pow10(4) == 10000);
    assert(spec_pow10(5) == 100000);
    assert(spec_pow10(6) == 1000000);
    lemma_format_len_le(f, 6);
    let d = spec_format_nat(f);
    if d.len() >= 6 {
        assert(spec_pad6(f) == d);
    } else {
        let z = seq!['0', '0', '0', '0', '0'].take(6 - d.len());
        assert(forall|i: int| 0 <= i < z.len() ==> z[i] == '0') by {
            assert(forall|i: int|
                0 <= i < 5 ==> seq!['0', '0', '0', '0', '0'][i] == '0');
        }
        lemma_leading_zeros_val(z, d);
        assert forall|i: int| 0 <= i < spec_pad6(f).len() implies spec_is_digit(
            #[trigger] spec_pad6(f)[i],
        ) by {
            if i < z.len() {
                assert(spec_pad6(f)[i] == z[i]);
                assert(spec_is_digit('0'));
            } else {
                assert(spec_pad6(f)[i] == d[i - z.len()]);
            }
        }
    }
}

/// Trimming trailing zeros can be undone by appending them again.
proof fn lemma_trim_restore(s: Seq<char>)
    requires
        s.len() >= 1,
    ensures
        1 <= spec_trim_zeros(s).len() <= s.len(),
        spec_trim_zeros(s) + spec_zeros((s.len() - spec_trim_zeros(s).len()) as nat) == s,
        forall|i: int|
            0 <= i < spec_trim_zeros(s).len() ==> #[trigger] spec_trim_zeros(s)[i] == s[i],
    decreases s.len(),
{
    if s.len() <= 1 || s.last() != '0' {
        assert(spec_trim_zeros(s) + spec_zeros(0) =~= spec_trim_zeros(s));
    } else {
        lemma_trim_restore(s.drop_last());
        let d = s.drop_last();
        let tr = spec_trim_zeros(s);
        assert(tr == spec_trim_zeros(d));
        let k = (d.len() - tr.len()) as nat;
        assert(tr + spec_zeros(k) == d);
        assert(tr + spec_zeros((k + 1) as nat) =~= (tr + spec_zeros(k)).push('0'));
        assert(d.push('0') =~= s);
        assert forall|i: int| 0 <= i < tr.len() implies #[trigger] tr[i] == s[i] by {
            assert(tr[i] == d[i]);
            assert(d[i] == s[i]);
        }
    }
}

/// Scanning for the dot jumps over a run of non-dots.
proof fn lemma_find_dot_at(s: Seq<char>, i: int, d: int)
    requires
        0 <= i <= d < s.len(),
        s[d] == '.',
        forall|j: int| i <= j < d ==> s[j] != '.',
    ensures
        spec_find_dot(s, i) == d,
    decreases d - i,
{
    if i < d {
        lemma_find_dot_at(s, i + 1, d);
    }
}

/// Reading the fixed-point text back yields the amount: `spec_num_micros`
/// inverts `spec_format_micros`.
pub proof fn lemma_micros_roundtrip(m: u64)
    ensures
        spec_num_micros(spec_format_micros(m as nat)) == Some(m as nat),
{
    let whole = m as nat / 1000000;
    let frac = m as nat % 1000000;
    let ipart = spec_format_nat(whole);
    lemma_format_nat_val(whole);
    lemma_pad6_shape(frac);
    let p6 = spec_pad6(frac);
    lemma_trim_restore(p6);
    let fpart = spec_trim_zeros(p6);
    let s = spec_format_micros(m as nat);
    assert(s == ipart + seq!['.'] + fpart);
    let d = ipart.len() as int;
    assert(s[d] == '.') by {
        assert(s =~= (ipart + seq!['.']) + fpart);
        assert((ipart + seq!['.'])[d] == '.');
    }
    assert forall|j: int| 0 <= j < d implies s[j] != '.' by {
        assert(s[j] == ipart[j]);
        assert(spec_is_digit(ipart[j]));
    }
    lemma_find_dot_at(s, 0, d);
    assert(s.take(d) =~= ipart);
    let fp = s.subrange(d + 1, s.len() as int);
    assert(fp =~= fpart);
    assert(fpart.len() >= 1);
    assert forall|i: int| 0 <= i < fpart.len() implies spec_is_digit(#[trigger] fpart[i]) by {
        assert(fpart[i] == p6[i]);
    }
    assert(fpart.len() <= 6);
    let f6 = if fp.len() >= 6 {
        fp.take(6)
    } else {
        fp + spec_zeros((6 - fp.len()) as nat)
    };
    if fp.len() >= 6 {
        assert(fp.len() == 6);
        assert(fp.take(6) =~= fpart);
        assert(fpart + spec_zeros(0) =~= fpart);
        assert(f6 =~= p6);
    } else {
        assert(f6 =~= p6);
    }
    assert(spec_digits_val(f6) == frac);
    assert(spec_digits_val(ipart) == whole);
    assert(whole * 1000000 + frac == m) by (nonlinear_arith)
        requires
            whole == m as nat / 1000000,
            frac == m as nat % 1000000;
}

// --- the emitted text, stated over the document model ---

/// The compact serialization, stated over the mathematical document.
pub open spec fn spec_emit_spec(v: JsonSpec) -> Seq<char>
    decreases v,
{
    match v {
        JsonSpec::Null => seq!['n', 'u', 'l', 'l'],
        JsonSpec::Bool(b) => if b {
            seq!['t', 'r', 'u', 'e']
        } else {
            seq!['f', 'a', 'l', 's', 'e']
        },
        JsonSpec::Num(raw) => raw,
        JsonSpec::Str(s) => seq!['"'] + spec_escape(s) + seq!['"'],
        JsonSpec::Arr(items) => seq!['['] + spec_emit_spec_items(items, 0) + seq![']'],
        JsonSpec::Obj(fields) => seq!['{'] + spec_emit_spec_fields(fields, 0) + seq!['}'],
    }
}

pub open spec fn spec_emit_spec_items(items: Seq<JsonSpec>, k: int) -> Seq<char>
    decreases items, items.len() - k,
{
    if k < 0 || k >= items.len() {
        Seq::empty()
    } else {
        let head = spec_emit_spec(items[k]);
        if k == items.len() - 1 {
            head
        } else {
            head + seq![','] + spec_emit_spec_items(items, k + 1)
        }
    }
}

pub open spec fn spec_emit_spec_fields(fields: Seq<(Seq<char>, JsonSpec)>, k: int) -> Seq<char>
    decreases fields, fields.len() - k,
{
    if k < 0 || k >= fields.len() {
        Seq::empty()
    } else {
        let head = seq!['"'] + spec_escape(fields[k].0) + seq!['"', ':'] + spec_emit_spec(
            fields[k].1,
        );
        if k == fields.len() - 1 {
            head
        } else {
            head + seq![','] + spec_emit_spec_fields(fields, k + 1)
        }
    }
}

/// The emitted text depends only on the document a value denotes.
pub proof fn lemma_emit_spec(v: Json)
    ensures
        spec_emit(v) == spec_emit_spec(v@),
    decreases v,
{
    match v {
        Json::Null => {},
        Json::Bool(b) => {},
        Json::Num(raw) => {},
        Json::Str(s) => {},
        Json::Arr(items) => {
            lemma_view_items_len(items@, 0);
            lemma_emit_spec_items(items@, view_items(items@, 0), 0);
            assert(spec_emit(v) =~= spec_emit_spec(v@));
        },
        Json::Obj(fields) => {
            lemma_view_fields_len(fields@, 0);
            lemma_emit_spec_fields(fields@, view_fields(fields@, 0), 0);
            assert(spec_emit(v) =~= spec_emit_spec(v@));
        },
    }
}

proof fn lemma_emit_spec_items(items: Seq<Json>, viewed: Seq<JsonSpec>, k: int)
    requires
        0 <= k,
        viewed == view_items(items, 0),
    ensures
        spec_emit_items(items, k) == spec_emit_spec_items(viewed, k),
    decreases items, items.len() - k,
{
    lemma_view_items_len(items, 0);
    if k < items.len() {
        lemma_view_items_index(items, 0, k);
        lemma_emit_spec(items[k]);
        lemma_emit_spec_items(items, viewed, k + 1);
    }
}

proof fn lemma_emit_spec_fields(fields: Seq<(Vec<char>, Json)>, viewed: Seq<(Seq<char>, JsonSpec)>, k: int)
    requires
        0 <= k,
        viewed == view_fields(fields, 0),
    ensures
        spec_emit_fields(fields, k) == spec_emit_spec_fields(viewed, k),
    decreases fields, fields.len() - k,
{
    lemma_view_fields_len(fields, 0);
    if k < fields.len() {
        lemma_view_fields_index(fields, 0, k);
        lemma_emit_spec(fields[k].1);
        lemma_emit_spec_fields(fields, viewed, k + 1);
    }
}

// --- a readable form for the snapshot file ---

/// The one-field-per-line serialization of an object: every field indented
/// on its own line, values in compact form. Other values serialize
/// compactly.
pub open spec fn spec_emit_pretty(v: JsonSpec) -> Seq<char> {
    match v {
        JsonSpec::Obj(fields) => if fields.len() == 0 {
            seq!['{', '}']
        } else {
            seq!['{', '\n'] + spec_pretty_fields(fields, 0) + seq!['}']
        },
        _ => spec_emit_spec(v),
    }
}

pub open spec fn spec_pretty_fields(fields: Seq<(Seq<char>, JsonSpec)>, k: int) -> Seq<char>
    decreases fields.len() - k,
{
    if !(0 <= k < fields.len()) {
        Seq::empty()
    } else {
        seq![' ', ' ', '"'] + spec_escape(fields[k].0) + seq!['"', ':', ' '] + spec_emit_spec(
            fields[k].1,
        ) + (if k == fields.len() - 1 {
            seq!['\n']
        } else {
            seq![',', '\n']
        }) + spec_pretty_fields(fields, k + 1)
    }
}

/// Serialize with the object's fields one per line.
pub fn emit_json_pretty(v: &Json) -> (out: Vec<char>)
    ensures
        out@ == spec_emit_pretty(v@),
{
    match v {
        Json::Obj(fields) => {
            proof {
                lemma_view_fields_len(fields@, 0);
            }
            if fields.len() == 0 {
                let mut out: Vec<char> = Vec::new();
                out.push('{');
                out.push('}');
                proof {
                    assert(out@ =~= seq!['{', '}']);
                }
                return out;
            }
            let ghost vf = view_fields(fields@, 0);
            let mut out: Vec<char> = Vec::new();
            out.push('{');
            out.push('\n');
            let ghost base = out@;
            let mut k: usize = 0;
            while k < fields.len()
                invariant
                    k <= fields@.len(),
                    vf == view_fields(fields@, 0),
                    vf.len() == fields@.len(),
                    base == seq!['{', '\n'],
                    out@ + spec_pretty_fields(vf, k as int) == base + spec_pretty_fields(vf, 0),
                decreases fields@.len() - k,
            {
                let ghost pre = out@;
                proof {
                    lemma_view_fields_index(fields@, 0, k as int);
                }
                out.push(' ');
                out.push(' ');
                out.push('"');
                push_escaped(&mut out, &fields[k].0);
                out.push('"');
                out.push(':');
                out.push(' ');
                push_json(&mut out, &fields[k].1);
                proof {
                    lemma_emit_spec(fields@[k as int].1);
                }
                if k + 1 < fields.len() {
                    out.push(',');
                    out.push('\n');
                    proof {
                        assert(out@ =~= pre + (seq![' ', ' ', '"'] + spec_escape(vf[k as int].0)
                            + seq!['"', ':', ' '] + spec_emit_spec(vf[k as int].1) + seq![
                            ',',
                            '\n',
                        ]));
                        assert(out@ + spec_pretty_fields(vf, k + 1) =~= pre + spec_pretty_fields(
                            vf,
                            k as int,
                        ));
                    }
                } else {
                    out.push('\n');
                    proof {
                        assert(spec_pretty_fields(vf, k + 1) =~= Seq::<char>::empty());
                        assert(out@ =~= pre + (seq![' ', ' ', '"'] + spec_escape(vf[k as int].0)
                            + seq!['"', ':', ' '] + spec_emit_spec(vf[k as int].1) + seq!['\n']));
                        assert(out@ + spec_pretty_fields(vf, k + 1) =~= pre + spec_pretty_fields(
                            vf,
                            k as int,
                        ));
                    }
                }
                k = k + 1;
            }
            proof {
                assert(spec_pretty_fields(vf, vf.len() as int) =~= Seq::<char>::empty());
                assert(out@ =~= out@ + spec_pretty_fields(vf, vf.len() as int));
            }
            out.push('}');
            proof {
                assert(out@ =~= spec_emit_pretty(v@));
            }
            out
        },
        _ => {
            let out = emit_json(v);
            proof {
                lemma_emit_spec(*v);
            }
            out
        },
    }
}

// --- reading back emitted text ---

/// The escaped form decomposes from the front.
proof fn lemma_escape_front(s: Seq<char>)
    requires
        s.len() > 0,
    ensures
        spec_escape(s) == spec_escape_char(s[0]) + spec_escape(s.drop_first()),
    decreases s.len(),
{
    if s.len() == 1 {
        assert(s.drop_last() =~= Seq::<char>::empty());
        assert(s.drop_first() =~= Seq::<char>::empty());
        assert(spec_escape(s) =~= spec_escape_char(s[0]) + spec_escape(s.drop_first()));
    } else {
        lemma_escape_front(s.drop_last());
        assert(s.drop_last()[0] == s[0]);
        assert(s.drop_last().drop_first() =~= s.drop_first().drop_last());
        assert(s.drop_first().last() == s.last());
        assert(spec_escape(s) == spec_escape(s.drop_last()) + spec_escape_char(s.last()));
        assert(spec_escape(s.drop_first()) == spec_escape(s.drop_first().drop_last())
            + spec_escape_char(s.last()));
        assert(spec_escape_char(s[0]) + spec_escape(s.drop_first()) =~= spec_escape(s));
    }
}

/// Hex digits read back their value.
proof fn lemma_hex_digit_val(d: nat)
    requires
        d < 16,
    ensures
        spec_hex_val(spec_hex_digit(d)) == Some(d),
{
    if d < 10 {
        assert(spec_hex_digit(d) as u32 == d + 0x30);
    } else {
        assert(spec_hex_digit(d) as u32 == d - 10 + 0x61);
    }
}

/// Reading a string body off its escaped form: the decoder consumes the
/// escape of `s` and the closing quote, and appends exactly `s`.
/// One decoding step: the decoder reads one escaped character and appends
/// the character it stands for.
#[verifier::rlimit(100)]
#[verifier::spinoff_prover]
proof fn lemma_read_one_escape(text: Seq<char>, i: int, acc: Seq<char>, c: char)
    requires
        0 <= i,
        i + spec_escape_char(c).len() < text.len(),
        forall|x: int|
            0 <= x < spec_escape_char(c).len() ==> text[i + x] == #[trigger] spec_escape_char(c)[
                x
            ],
    ensures
        spec_parse_string_body(text, i, acc) == spec_parse_string_body(
            text,
            i + spec_escape_char(c).len(),
            acc.push(c),
        ),
{
    let e = spec_escape_char(c);
    let u = c as u32;
    if u == 0x22 {
        assert(text[i] == '\\' && text[i + 1] == '"');
    } else if u == 0x5c {
        assert(text[i] == '\\' && text[i + 1] == '\\');
    } else if u == 0x8 {
        assert(text[i] == '\\' && text[i + 1] == 'b');
        assert(acc.push('\u{8}') == acc.push(c));
    } else if u == 0xc {
        assert(text[i] == '\\' && text[i + 1] == 'f');
        assert(acc.push('\u{c}') == acc.push(c));
    } else if u == 0xa {
        assert(text[i] == '\\' && text[i + 1] == 'n');
        assert(acc.push('\n') == acc.push(c));
    } else if u == 0xd {
        assert(text[i] == '\\' && text[i + 1] == 'r');
        assert(acc.push('\r') == acc.push(c));
    } else if u == 0x9 {
        assert(text[i] == '\\' && text[i + 1] == 't');
        assert(acc.push('\t') == acc.push(c));
    } else if u < 0x20 {
        assert(text[i] == '\\' && text[i + 1] == 'u' && text[i + 2] == '0' && text[i + 3] == '0');
        assert(text[i + 4] == spec_hex_digit((u / 16) as nat));
        assert(text[i + 5] == spec_hex_digit((u % 16) as nat));
        lemma_hex_digit_val((u / 16) as nat);
        lemma_hex_digit_val((u % 16) as nat);
        assert(spec_hex_val('0') == Some(0nat));
        assert(spec_hex4(text, i + 2) == Some(((u / 16) * 16 + u % 16) as nat));
        assert((u / 16) * 16 + u % 16 == u) by (nonlinear_arith);
        assert(!(0xD800 <= u && u < 0xDC00));
        assert(!(0xDC00 <= u && u < 0xE000));
        lemma_char_of_value(c);
        assert(acc.push(spec_char_of(u as nat)) == acc.push(c));
    } else {
        assert(e[0] == c);
        assert(text[i] == c);
        assert(text[i] as u32 != 0x22);
        assert(text[i] as u32 != 0x5c);
        assert(text[i] as u32 >= 0x20);
    }
}

/// Reading a string body off its escaped form: the decoder consumes the
/// escape of `s` and appends exactly `s`.
proof fn lemma_read_string_body(text: Seq<char>, i: int, acc: Seq<char>, s: Seq<char>)
    requires
        0 <= i,
        i + spec_escape(s).len() + 1 <= text.len(),
        text.subrange(i, text.len() as int) =~= spec_escape(s) + seq!['"']
            + text.subrange(i + spec_escape(s).len() + 1, text.len() as int),
    ensures
        spec_parse_string_body(text, i, acc) == spec_parse_string_body(
            text,
            i + spec_escape(s).len(),
            acc + s,
        ),
    decreases s.len(),
{
    let tail = text.subrange(i, text.len() as int);
    if s.len() == 0 {
        assert(spec_escape(s).len() == 0);
        assert(acc + s =~= acc);
    } else {
        lemma_escape_front(s);
        let c = s[0];
        let e = spec_escape_char(c);
        assert(spec_escape(s) == e + spec_escape(s.drop_first()));
        assert forall|x: int| 0 <= x < e.len() implies text[i + x] == #[trigger] e[x] by {
            assert(tail[x] == e[x]);
        }
        lemma_read_one_escape(text, i, acc, c);
        let i2 = i + e.len();
        assert(text.subrange(i2, text.len() as int) =~= spec_escape(s.drop_first()) + seq!['"']
            + text.subrange(i2 + spec_escape(s.drop_first()).len() + 1, text.len() as int)) by {
            assert forall|x: int|
                0 <= x < text.len() - i2 implies text.subrange(i2, text.len() as int)[x] == (
            spec_escape(s.drop_first()) + seq!['"'] + text.subrange(
                i2 + spec_escape(s.drop_first()).len() + 1,
                text.len() as int,
            ))[x] by {
                assert(text.subrange(i2, text.len() as int)[x] == tail[e.len() + x]);
            }
        }
        lemma_read_string_body(text, i2, acc.push(c), s.drop_first());
        assert(acc.push(c) + s.drop_first() =~= acc + s);
    }
}

/// The text-level string round trip: wherever a written string literal
/// stands in a text — the escaped body between its quotes — the decoder
/// yields exactly the written body and stops right after the closing quote.
pub proof fn lemma_string_literal_round_trip(text: Seq<char>, i: int, s: Seq<char>)
    requires
        0 <= i,
        i + spec_escape(s).len() + 1 <= text.len(),
        text.subrange(i, text.len() as int) =~= spec_escape(s) + seq!['"']
            + text.subrange(i + spec_escape(s).len() + 1, text.len() as int),
    ensures
        spec_parse_string_body(text, i, Seq::empty()) == Some(
            (s, i + spec_escape(s).len() + 1),
        ),
{
    lemma_read_string_body(text, i, Seq::empty(), s);
    let j = i + spec_escape(s).len();
    assert(text[j] == '"') by {
        assert(text.subrange(i, text.len() as int)[spec_escape(s).len() as int] == '"');
    }
    assert(Seq::empty() + s =~= s);
    assert(spec_parse_string_body(text, j, s) == Some((s, j + 1)));
}

/// The digit scan runs to the end of a digit run.
proof fn lemma_scan_digits_run(s: Seq<char>, i: int, e: int)
    requires
        0 <= i <= e <= s.len(),
        forall|j: int| i <= j < e ==> spec_is_digit(#[trigger] s[j]),
        e == s.len() || !spec_is_digit(s[e]),
    ensures
        spec_scan_digits(s, i) == e,
    decreases e - i,
{
    if i < e {
        lemma_scan_digits_run(s, i + 1, e);
    }
}

/// A formatted number starts with a zero digit only for zero itself.
proof fn lemma_format_leading(n: nat)
    ensures
        spec_format_nat(n).len() >= 1,
        spec_is_digit(spec_format_nat(n)[0]),
        (spec_format_nat(n)[0] == '0') == (n == 0),
    decreases n,
{
    crate::text::lemma_format_nat_val(n);
    if n < 10 {
        assert(spec_format_nat(n)[0] == spec_digit_char(n % 10));
        assert(spec_digit_char(n % 10) as u32 == n % 10 + 0x30);
        assert('0' as u32 == 0x30);
    } else {
        lemma_format_leading(n / 10);
        assert(spec_format_nat(n) == spec_format_nat(n / 10) + seq![spec_digit_char(n % 10)]);
        assert(spec_format_nat(n)[0] == spec_format_nat(n / 10)[0]);
    }
}

/// Whether a character would extend a number token.
pub open spec fn spec_extends_number(c: char) -> bool {
    spec_is_digit(c) || c == '.' || c == 'e' || c == 'E' || c == '+' || c == '-'
}

/// The text-level integer round trip: wherever a written integer token
/// stands, followed by nothing that could extend it, the number scanner
/// stops exactly after its digits.
pub proof fn lemma_integer_token_round_trip(text: Seq<char>, i: int, n: nat)
    requires
        0 <= i,
        i + spec_format_nat(n).len() <= text.len(),
        forall|x: int|
            0 <= x < spec_format_nat(n).len() ==> text[i + x] == #[trigger] spec_format_nat(n)[x],
        i + spec_format_nat(n).len() == text.len() || !spec_extends_number(
            text[i + spec_format_nat(n).len()],
        ),
    ensures
        spec_parse_number_end(text, i) == Some(i + spec_format_nat(n).len()),
{
    let raw = spec_format_nat(n);
    let e = i + raw.len();
    crate::text::lemma_format_nat_val(n);
    lemma_format_leading(n);
    assert(text[i] == raw[0]);
    assert(spec_is_digit(text[i]));
    assert(text[i] != '-') by {
        assert('-' as u32 == 0x2d);
    }
    assert forall|j: int| i <= j < e implies spec_is_digit(#[trigger] text[j]) by {
        assert(text[j] == raw[j - i]);
    }
    lemma_scan_digits_run(text, i, e);
    if text[i] == '0' {
        assert(n == 0);
        assert(raw.len() == 1);
    } else {
        lemma_scan_digits_run(text, i, e);
    }
    assert(spec_parse_number_end(text, i) == Some(e)) by {
        if e < text.len() {
            assert(!spec_is_digit(text[e]) && text[e] != '.' && text[e] != 'e' && text[e] != 'E');
        }
    }
}

/// The text-level fixed-point round trip: wherever a written dollar amount
/// stands, followed by nothing that could extend it, the number scanner
/// stops exactly after its fraction.
#[verifier::rlimit(60)]
pub proof fn lemma_fixed_point_token_round_trip(text: Seq<char>, i: int, m: u64)
    requires
        0 <= i,
        i + spec_format_micros(m as nat).len() <= text.len(),
        forall|x: int|
            0 <= x < spec_format_micros(m as nat).len() ==> text[i + x]
                == #[trigger] spec_format_micros(m as nat)[x],
        i + spec_format_micros(m as nat).len() == text.len() || !spec_extends_number(
            text[i + spec_format_micros(m as nat).len()],
        ),
    ensures
        spec_parse_number_end(text, i) == Some(i + spec_format_micros(m as nat).len()),
{
    let whole = m as nat / 1000000;
    let frac = m as nat % 1000000;
    let ipart = spec_format_nat(whole);
    crate::text::lemma_format_nat_val(whole);
    lemma_format_leading(whole);
    lemma_pad6_shape(frac);
    lemma_trim_restore(spec_pad6(frac));
    let fpart = spec_trim_zeros(spec_pad6(frac));
    let raw = spec_format_micros(m as nat);
    assert(raw == ipart + seq!['.'] + fpart);
    let dot = i + ipart.len();
    let e = i + raw.len();
    assert(ipart.len() >= 1);
    assert(text[i + 0] == spec_format_micros(m as nat)[0]);
    assert(raw[0] == ipart[0]);
    assert(text[i] == ipart[0]);
    assert(spec_is_digit(text[i]));
    assert(text[i] != '-') by {
        assert('-' as u32 == 0x2d);
    }
    assert forall|j: int| i <= j < dot implies spec_is_digit(#[trigger] text[j]) by {
        assert(text[j] == raw[j - i]);
        assert(raw[j - i] == ipart[j - i]);
    }
    assert(text[dot] == '.') by {
        assert(text[dot] == raw[ipart.len() as int]);
    }
    assert('.' as u32 == 0x2e);
    assert(!spec_is_digit('.'));
    lemma_scan_digits_run(text, i, dot);
    assert forall|j: int| dot + 1 <= j < e implies spec_is_digit(#[trigger] text[j]) by {
        assert(text[j] == raw[j - i]);
        assert(raw[j - i] == fpart[j - i - ipart.len() - 1]);
        assert(fpart[j - i - ipart.len() - 1] == spec_pad6(frac)[j - i - ipart.len() - 1]);
    }
    lemma_scan_digits_run(text, dot + 1, e);
    assert(fpart.len() >= 1);
    let int_end: int = if text[i] == '0' {
        i + 1
    } else {
        dot
    };
    if text[i] == '0' {
        assert(whole == 0);
        assert(ipart.len() == 1);
        assert(int_end == dot);
    }
    assert(int_end == dot);
    assert(spec_parse_number_end(text, i) == spec_parse_exp_end(text, e)) by {
        assert(text[dot] == '.');
        assert(spec_scan_digits(text, dot + 1) == e);
        assert(e != dot + 1);
    }
    assert(spec_parse_exp_end(text, e) == Some(e)) by {
        if e < text.len() {
            assert(text[e] != 'e' && text[e] != 'E');
        }
    }
}

// --- reading back whole emitted documents ---

/// The whitespace skip runs to the end of a whitespace run.
proof fn lemma_skip_ws_run(s: Seq<char>, i: int, e: int)
    requires
        0 <= i <= e <= s.len(),
        forall|j: int| i <= j < e ==> spec_is_json_ws(#[trigger] s[j]),
        e == s.len() || !spec_is_json_ws(s[e]),
    ensures
        spec_skip_ws(s, i) == e,
    decreases e - i,
{
    if i < e {
        lemma_skip_ws_run(s, i + 1, e);
    }
}

/// A value whose number tokens were all written by the crate's own
/// formatters; what the emitter produces for it can be read back.
pub open spec fn spec_writable(v: JsonSpec) -> bool
    decreases v,
{
    match v {
        JsonSpec::Null => true,
        JsonSpec::Bool(_) => true,
        JsonSpec::Str(_) => true,
        JsonSpec::Num(raw) => (exists|n: nat| raw == spec_format_nat(n)) || (exists|m: u64|
            raw == spec_format_micros(m as nat)),
        JsonSpec::Arr(items) => forall|k: int|
            0 <= k < items.len() ==> spec_writable(#[trigger] items[k]),
        JsonSpec::Obj(fields) => forall|k: int|
            0 <= k < fields.len() ==> spec_writable((#[trigger] fields[k]).1),
    }
}

/// How deeply a value nests.
pub open spec fn spec_doc_depth(v: JsonSpec) -> nat
    decreases v,
{
    match v {
        JsonSpec::Arr(items) => 1 + spec_items_depth(items, 0),
        JsonSpec::Obj(fields) => 1 + spec_fields_depth(fields, 0),
        _ => 0,
    }
}

pub open spec fn spec_items_depth(items: Seq<JsonSpec>, k: int) -> nat
    decreases items, items.len() - k,
{
    if !(0 <= k < items.len()) {
        0
    } else if spec_doc_depth(items[k]) > spec_items_depth(items, k + 1) {
        spec_doc_depth(items[k])
    } else {
        spec_items_depth(items, k + 1)
    }
}

pub open spec fn spec_fields_depth(fields: Seq<(Seq<char>, JsonSpec)>, k: int) -> nat
    decreases fields, fields.len() - k,
{
    if !(0 <= k < fields.len()) {
        0
    } else if spec_doc_depth(fields[k].1) > spec_fields_depth(fields, k + 1) {
        spec_doc_depth(fields[k].1)
    } else {
        spec_fields_depth(fields, k + 1)
    }
}

/// The parsing steps a value can consume.
pub open spec fn spec_fuel_needed(v: JsonSpec) -> nat
    decreases v,
{
    match v {
        JsonSpec::Arr(items) => 1 + spec_items_fuel(items, 0),
        JsonSpec::Obj(fields) => 1 + spec_fields_fuel(fields, 0),
        _ => 1,
    }
}

pub open spec fn spec_items_fuel(items: Seq<JsonSpec>, k: int) -> nat
    decreases items, items.len() - k,
{
    if !(0 <= k < items.len()) {
        0
    } else {
        1 + spec_fuel_needed(items[k]) + spec_items_fuel(items, k + 1)
    }
}

pub open spec fn spec_fields_fuel(fields: Seq<(Seq<char>, JsonSpec)>, k: int) -> nat
    decreases fields, fields.len() - k,
{
    if !(0 <= k < fields.len()) {
        0
    } else {
        1 + spec_fuel_needed(fields[k].1) + spec_fields_fuel(fields, k + 1)
    }
}

/// The steps a value needs are bounded by twice its emitted length; the
/// parser's step budget of twice the text length therefore always covers
/// an emitted document.
proof fn lemma_fuel_vs_len(v: JsonSpec)
    requires
        spec_writable(v),
    ensures
        spec_fuel_needed(v) <= 2 * spec_emit_spec(v).len(),
        spec_emit_spec(v).len() >= 1,
    decreases v,
{
    match v {
        JsonSpec::Null => {},
        JsonSpec::Bool(b) => {},
        JsonSpec::Str(s) => {},
        JsonSpec::Num(raw) => {
            if exists|n: nat| raw == spec_format_nat(n) {
                let n = choose|n: nat| raw == spec_format_nat(n);
                crate::text::lemma_format_nat_val(n);
            } else {
                let m = choose|m: u64| raw == spec_format_micros(m as nat);
                crate::text::lemma_format_nat_val(m as nat / 1000000);
            }
        },
        JsonSpec::Arr(items) => {
            lemma_items_fuel_vs_len(items, 0);
        },
        JsonSpec::Obj(fields) => {
            lemma_fields_fuel_vs_len(fields, 0);
        },
    }
}

proof fn lemma_items_fuel_vs_len(items: Seq<JsonSpec>, k: int)
    requires
        0 <= k,
        forall|x: int| 0 <= x < items.len() ==> spec_writable(#[trigger] items[x]),
    ensures
        spec_items_fuel(items, k) <= 2 * spec_emit_spec_items(items, k).len() + 1,
    decreases items, items.len() - k,
{
    if k < items.len() {
        lemma_items_fuel_vs_len(items, k + 1);
        lemma_fuel_vs_len(items[k]);
    }
}

proof fn lemma_fields_fuel_vs_len(fields: Seq<(Seq<char>, JsonSpec)>, k: int)
    requires
        0 <= k,
        forall|x: int| 0 <= x < fields.len() ==> spec_writable((#[trigger] fields[x]).1),
    ensures
        spec_fields_fuel(fields, k) <= 2 * spec_emit_spec_fields(fields, k).len() + 1,
    decreases fields, fields.len() - k,
{
    if k < fields.len() {
        lemma_fields_fuel_vs_len(fields, k + 1);
        lemma_fuel_vs_len(fields[k].1);
    }
}

/// What the emitter writes first for a value: never whitespace, never a
/// closing bracket, so a reader standing before the value finds it at once.
proof fn lemma_emit_first(v: JsonSpec)
    requires
        spec_writable(v),
    ensures
        spec_emit_spec(v).len() >= 1,
        !spec_is_json_ws(spec_emit_spec(v)[0]),
        spec_emit_spec(v)[0] != ']',
        spec_emit_spec(v)[0] != '}',
{
    match v {
        JsonSpec::Null => {
            assert(spec_emit_spec(v)[0] == 'n');
        },
        JsonSpec::Bool(b) => {
            if b {
                assert(spec_emit_spec(v)[0] == 't');
            } else {
                assert(spec_emit_spec(v)[0] == 'f');
            }
        },
        JsonSpec::Str(s) => {
            assert(spec_emit_spec(v)[0] == '"');
        },
        JsonSpec::Num(raw) => {
            if exists|n: nat| raw == spec_format_nat(n) {
                let n = choose|n: nat| raw == spec_format_nat(n);
                lemma_format_leading(n);
            } else {
                let m = choose|m: u64| raw == spec_format_micros(m as nat);
                lemma_format_leading(m as nat / 1000000);
                assert(raw[0] == spec_format_nat(m as nat / 1000000)[0]);
            }
            assert(spec_is_digit(raw[0]));
        },
        JsonSpec::Arr(items) => {
            assert(spec_emit_spec(v)[0] == '[');
        },
        JsonSpec::Obj(fields) => {
            assert(spec_emit_spec(v)[0] == '{');
        },
    }
}

/// The text-level value round trip: wherever an emitted value stands in a
/// text, followed by nothing that could extend a number token, the parser
/// reads back exactly that value and stops right after it.
#[verifier::rlimit(80)]
#[verifier::spinoff_prover]
pub proof fn lemma_read_value(text: Seq<char>, i: int, v: JsonSpec, depth: nat, fuel: nat)
    requires
        spec_writable(v),
        spec_doc_depth(v) <= depth,
        spec_fuel_needed(v) <= fuel,
        0 <= i,
        i + spec_emit_spec(v).len() <= text.len(),
        forall|x: int|
            0 <= x < spec_emit_spec(v).len() ==> text[i + x] == #[trigger] spec_emit_spec(v)[x],
        i + spec_emit_spec(v).len() == text.len() || !spec_extends_number(
            text[i + spec_emit_spec(v).len()],
        ),
    ensures
        spec_parse_value(text, i, depth, fuel) == Some((v, i + spec_emit_spec(v).len())),
    decreases v,
{
    let ee = spec_emit_spec(v);
    lemma_emit_first(v);
    assert(text[i] == ee[0]);
    assert(spec_skip_ws(text, i) == i);
    match v {
        JsonSpec::Null => {
            assert(text.subrange(i, i + 4) =~= seq!['n', 'u', 'l', 'l']) by {
                assert forall|x: int| 0 <= x < 4 implies text.subrange(i, i + 4)[x] == seq![
                    'n',
                    'u',
                    'l',
                    'l',
                ][x] by {
                    assert(text[i + x] == ee[x]);
                }
            }
            assert(spec_match_at(text, seq!['n', 'u', 'l', 'l'], i));
        },
        JsonSpec::Bool(b) => {
            if b {
                assert(text.subrange(i, i + 4) =~= seq!['t', 'r', 'u', 'e']) by {
                    assert forall|x: int| 0 <= x < 4 implies text.subrange(i, i + 4)[x] == seq![
                        't',
                        'r',
                        'u',
                        'e',
                    ][x] by {
                        assert(text[i + x] == ee[x]);
                    }
                }
                assert(spec_match_at(text, seq!['t', 'r', 'u', 'e'], i));
                assert('t' as u32 == 0x74 && 'n' as u32 == 0x6e);
            } else {
                assert(text.subrange(i, i + 5) =~= seq!['f', 'a', 'l', 's', 'e']) by {
                    assert forall|x: int| 0 <= x < 5 implies text.subrange(i, i + 5)[x] == seq![
                        'f',
                        'a',
                        'l',
                        's',
                        'e',
                    ][x] by {
                        assert(text[i + x] == ee[x]);
                    }
                }
                assert(spec_match_at(text, seq!['f', 'a', 'l', 's', 'e'], i));
                assert('f' as u32 == 0x66 && 'n' as u32 == 0x6e && 't' as u32 == 0x74);
            }
        },
        JsonSpec::Str(s) => {
            let esc = spec_escape(s);
            assert('"' as u32 == 0x22 && 'n' as u32 == 0x6e && 't' as u32 == 0x74 && 'f' as u32
                == 0x66);
            assert(text[i] == '"');
            assert(text.subrange(i + 1, text.len() as int) =~= esc + seq!['"'] + text.subrange(
                i + esc.len() + 2,
                text.len() as int,
            )) by {
                assert forall|y: int| 0 <= y < text.len() - (i + 1) implies #[trigger] text.subrange(
                    i + 1,
                    text.len() as int,
                )[y] == (esc + seq!['"'] + text.subrange(i + esc.len() + 2, text.len() as int))[y] by {
                    if y < esc.len() {
                        assert(text[i + (1 + y)] == ee[1 + y]);
                        assert(ee[1 + y] == esc[y]);
                    } else if y == esc.len() {
                        assert(text[i + (1 + y)] == ee[1 + y]);
                    }
                }
            }
            lemma_string_literal_round_trip(text, i + 1, s);
        },
        JsonSpec::Num(raw) => {
            assert(spec_is_digit(text[i])) by {
                assert(text[i] == raw[0]);
                if exists|n: nat| raw == spec_format_nat(n) {
                    let n = choose|n: nat| raw == spec_format_nat(n);
                    lemma_format_leading(n);
                } else {
                    let m = choose|m: u64| raw == spec_format_micros(m as nat);
                    lemma_format_leading(m as nat / 1000000);
                    assert(raw[0] == spec_format_nat(m as nat / 1000000)[0]);
                }
            }
            assert('n' as u32 == 0x6e && 't' as u32 == 0x74 && 'f' as u32 == 0x66 && '"' as u32
                == 0x22 && '-' as u32 == 0x2d);
            if exists|n: nat| raw == spec_format_nat(n) {
                let n = choose|n: nat| raw == spec_format_nat(n);
                lemma_integer_token_round_trip(text, i, n);
            } else {
                let m = choose|m: u64| raw == spec_format_micros(m as nat);
                lemma_fixed_point_token_round_trip(text, i, m);
            }
            assert(spec_parse_number_end(text, i) == Some(i + raw.len()));
            assert(text.subrange(i, i + raw.len()) =~= raw) by {
                assert forall|x: int| 0 <= x < raw.len() implies text.subrange(i, i + raw.len())[x]
                    == raw[x] by {
                    assert(text[i + x] == ee[x]);
                }
            }
        },
        JsonSpec::Arr(items) => {
            let tt = spec_emit_spec_items(items, 0);
            assert('[' as u32 == 0x5b && ']' as u32 == 0x5d && 'n' as u32 == 0x6e && 't' as u32
                == 0x74 && 'f' as u32 == 0x66 && '"' as u32 == 0x22 && '-' as u32 == 0x2d);
            assert(text[i] == '[');
            assert(ee =~= seq!['['] + tt + seq![']']);
            if items.len() == 0 {
                assert(text[i + 1] == ee[1]);
                assert(ee[1] == ']');
                assert(spec_skip_ws(text, i + 1) == i + 1);
                assert(items =~= Seq::<JsonSpec>::empty());
            } else {
                lemma_emit_first(items[0]);
                assert(tt[0] == spec_emit_spec(items[0])[0]);
                assert(text[i + 1] == ee[1]);
                assert(ee[1] == tt[0]);
                assert(spec_skip_ws(text, i + 1) == i + 1);
                assert(text[i + 1] != ']');
                assert forall|x: int| 0 <= x < tt.len() implies text[i + 1 + x] == #[trigger] tt[x] by {
                    assert(text[i + (1 + x)] == ee[1 + x]);
                    assert(ee[1 + x] == tt[x]);
                }
                assert(text[i + 1 + tt.len()] == ']') by {
                    assert(text[i + (1 + tt.len())] == ee[(1 + tt.len()) as int]);
                }
                lemma_read_arr_items(
                    text,
                    i + 1,
                    items,
                    0,
                    (depth - 1) as nat,
                    (fuel - 1) as nat,
                    Seq::empty(),
                );
                assert(Seq::<JsonSpec>::empty() + items.skip(0) =~= items);
            }
        },
        JsonSpec::Obj(fields) => {
            let tt = spec_emit_spec_fields(fields, 0);
            assert('{' as u32 == 0x7b && '}' as u32 == 0x7d && 'n' as u32 == 0x6e && 't' as u32
                == 0x74 && 'f' as u32 == 0x66 && '"' as u32 == 0x22 && '-' as u32 == 0x2d && '['
                as u32 == 0x5b);
            assert(text[i] == '{');
            assert(ee =~= seq!['{'] + tt + seq!['}']);
            if fields.len() == 0 {
                assert(text[i + 1] == ee[1]);
                assert(ee[1] == '}');
                assert(spec_skip_ws(text, i + 1) == i + 1);
                assert(fields =~= Seq::<(Seq<char>, JsonSpec)>::empty());
            } else {
                assert(tt[0] == '"') by {
                    assert(tt == (seq!['"'] + spec_escape(fields[0].0) + seq!['"', ':']
                        + spec_emit_spec(fields[0].1)) + seq![','] + spec_emit_spec_fields(
                        fields,
                        1,
                    ) || tt == seq!['"'] + spec_escape(fields[0].0) + seq!['"', ':']
                        + spec_emit_spec(fields[0].1));
                }
                assert(text[i + 1] == ee[1]);
                assert(ee[1] == tt[0]);
                assert(spec_skip_ws(text, i + 1) == i + 1);
                assert(text[i + 1] != '}');
                assert forall|x: int| 0 <= x < tt.len() implies text[i + 1 + x] == #[trigger] tt[x] by {
                    assert(text[i + (1 + x)] == ee[1 + x]);
                    assert(ee[1 + x] == tt[x]);
                }
                assert(text[i + 1 + tt.len()] == '}') by {
                    assert(text[i + (1 + tt.len())] == ee[(1 + tt.len()) as int]);
                }
                lemma_read_obj_items(
                    text,
                    i + 1,
                    fields,
                    0,
                    (depth - 1) as nat,
                    (fuel - 1) as nat,
                    Seq::empty(),
                );
                assert(Seq::<(Seq<char>, JsonSpec)>::empty() + fields.skip(0) =~= fields);
            }
        },
    }
}

/// Stepping through the emitted elements of a non-empty array: from the
/// position right after a comma (or the opening bracket), with the closing
/// bracket after the remaining elements, the element reader returns the
/// accumulated and remaining elements and stops after the bracket.
#[verifier::rlimit(80)]
#[verifier::spinoff_prover]
proof fn lemma_read_arr_items(
    text: Seq<char>,
    i: int,
    items: Seq<JsonSpec>,
    k: int,
    depth: nat,
    fuel: nat,
    acc: Seq<JsonSpec>,
)
    requires
        0 <= k < items.len(),
        forall|x: int| 0 <= x < items.len() ==> spec_writable(#[trigger] items[x]),
        spec_items_depth(items, k) <= depth,
        spec_items_fuel(items, k) <= fuel,
        0 <= i,
        i + spec_emit_spec_items(items, k).len() + 1 <= text.len(),
        forall|x: int|
            0 <= x < spec_emit_spec_items(items, k).len() ==> text[i + x]
                == #[trigger] spec_emit_spec_items(items, k)[x],
        text[i + spec_emit_spec_items(items, k).len()] == ']',
    ensures
        spec_parse_arr_items(text, i, depth, fuel, acc) == Some(
            (JsonSpec::Arr(acc + items.skip(k)), i + spec_emit_spec_items(items, k).len() + 1),
        ),
    decreases items, items.len() - k,
{
    let tt = spec_emit_spec_items(items, k);
    let e = items[k];
    let ek = spec_emit_spec(e);
    assert(',' as u32 == 0x2c && ']' as u32 == 0x5d && '.' as u32 == 0x2e && 'e' as u32 == 0x65
        && 'E' as u32 == 0x45 && '+' as u32 == 0x2b && '-' as u32 == 0x2d);
    assert(spec_doc_depth(e) <= depth);
    if k == items.len() - 1 {
        assert(tt == ek);
        assert forall|x: int| 0 <= x < ek.len() implies text[i + x] == #[trigger] ek[x] by {
            assert(text[i + x] == tt[x]);
        }
        assert(text[i + ek.len()] == ']');
        assert(!spec_extends_number(']'));
        lemma_read_value(text, i, e, depth, (fuel - 1) as nat);
        let j = i + ek.len();
        assert(spec_skip_ws(text, j) == j);
        assert(text[j] != ',');
        assert(acc.push(e) =~= acc + items.skip(k)) by {
            assert(items.skip(k).len() == 1);
            assert(items.skip(k)[0] == e);
        }
    } else {
        let rest = spec_emit_spec_items(items, k + 1);
        assert(tt == ek + seq![','] + rest);
        assert forall|x: int| 0 <= x < ek.len() implies text[i + x] == #[trigger] ek[x] by {
            assert(text[i + x] == tt[x]);
            assert(tt[x] == ek[x]);
        }
        assert(text[i + ek.len()] == ',') by {
            assert(text[i + ek.len()] == tt[ek.len() as int]);
        }
        assert(!spec_extends_number(','));
        lemma_read_value(text, i, e, depth, (fuel - 1) as nat);
        let j = i + ek.len();
        assert(spec_skip_ws(text, j) == j);
        assert forall|x: int| 0 <= x < rest.len() implies text[j + 1 + x] == #[trigger] rest[x] by {
            assert(text[i + (ek.len() + 1 + x)] == tt[ek.len() + 1 + x]);
            assert(tt[ek.len() + 1 + x] == rest[x]);
        }
        assert(text[j + 1 + rest.len()] == ']') by {
            assert(j + 1 + rest.len() == i + tt.len());
        }
        lemma_read_arr_items(text, j + 1, items, k + 1, depth, (fuel - 1) as nat, acc.push(e));
        assert(acc.push(e) + items.skip(k + 1) =~= acc + items.skip(k));
        assert(j + 1 + rest.len() + 1 == i + tt.len() + 1);
    }
}

/// Stepping through the emitted members of a non-empty object, as for
/// arrays: keys, colons and values in compact form.
#[verifier::rlimit(80)]
#[verifier::spinoff_prover]
proof fn lemma_read_obj_items(
    text: Seq<char>,
    i: int,
    fields: Seq<(Seq<char>, JsonSpec)>,
    k: int,
    depth: nat,
    fuel: nat,
    acc: Seq<(Seq<char>, JsonSpec)>,
)
    requires
        0 <= k < fields.len(),
        forall|x: int| 0 <= x < fields.len() ==> spec_writable((#[trigger] fields[x]).1),
        spec_fields_depth(fields, k) <= depth,
        spec_fields_fuel(fields, k) <= fuel,
        0 <= i,
        i + spec_emit_spec_fields(fields, k).len() + 1 <= text.len(),
        forall|x: int|
            0 <= x < spec_emit_spec_fields(fields, k).len() ==> text[i + x]
                == #[trigger] spec_emit_spec_fields(fields, k)[x],
        text[i + spec_emit_spec_fields(fields, k).len()] == '}',
    ensures
        spec_parse_obj_items(text, i, depth, fuel, acc) == Some(
            (JsonSpec::Obj(acc + fields.skip(k)), i + spec_emit_spec_fields(fields, k).len() + 1),
        ),
    decreases fields, fields.len() - k,
{
    let tt = spec_emit_spec_fields(fields, k);
    let key = fields[k].0;
    let val = fields[k].1;
    let esc = spec_escape(key);
    let ev = spec_emit_spec(val);
    let head = seq!['"'] + esc + seq!['"', ':'] + ev;
    assert(',' as u32 == 0x2c && '}' as u32 == 0x7d && '"' as u32 == 0x22 && ':' as u32 == 0x3a
        && '.' as u32 == 0x2e && 'e' as u32 == 0x65 && 'E' as u32 == 0x45 && '+' as u32 == 0x2b
        && '-' as u32 == 0x2d);
    assert(spec_doc_depth(val) <= depth);
    assert(head.len() == esc.len() + 3 + ev.len());
    assert(tt == head || tt == head + seq![','] + spec_emit_spec_fields(fields, k + 1));
    assert forall|x: int| 0 <= x < head.len() implies text[i + x] == #[trigger] head[x] by {
        assert(text[i + x] == tt[x]);
        assert(tt[x] == head[x]);
    }
    // the key literal
    assert(text[i] == head[0]);
    assert(spec_skip_ws(text, i) == i);
    assert(text.subrange(i + 1, text.len() as int) =~= esc + seq!['"'] + text.subrange(
        i + esc.len() + 2,
        text.len() as int,
    )) by {
        assert forall|y: int| 0 <= y < text.len() - (i + 1) implies #[trigger] text.subrange(
            i + 1,
            text.len() as int,
        )[y] == (esc + seq!['"'] + text.subrange(i + esc.len() + 2, text.len() as int))[y] by {
            if y < esc.len() {
                assert(text[i + (1 + y)] == head[1 + y]);
                assert(head[1 + y] == esc[y]);
            } else if y == esc.len() {
                assert(text[i + (1 + y)] == head[1 + y]);
            }
        }
    }
    lemma_string_literal_round_trip(text, i + 1, key);
    let j1 = i + esc.len() + 2;
    // the colon
    assert(text[j1] == ':') by {
        assert(text[i + (esc.len() + 2)] == head[(esc.len() + 2) as int]);
    }
    assert(spec_skip_ws(text, j1) == j1);
    // the value
    assert forall|x: int| 0 <= x < ev.len() implies text[j1 + 1 + x] == #[trigger] ev[x] by {
        assert(text[i + (esc.len() + 3 + x)] == head[esc.len() + 3 + x]);
        assert(head[esc.len() + 3 + x] == ev[x]);
    }
    let j2 = j1 + 1 + ev.len();
    if k == fields.len() - 1 {
        assert(tt == head);
        assert(text[j2] == '}') by {
            assert(j2 == i + tt.len());
        }
        assert(!spec_extends_number('}'));
        lemma_read_value(text, j1 + 1, val, depth, (fuel - 1) as nat);
        assert(spec_skip_ws(text, j2) == j2);
        assert(text[j2] != ',');
        assert(acc.push((key, val)) =~= acc + fields.skip(k)) by {
            assert(fields.skip(k).len() == 1);
            assert(fields.skip(k)[0] == fields[k]);
        }
        assert(j2 + 1 == i + tt.len() + 1);
    } else {
        let rest = spec_emit_spec_fields(fields, k + 1);
        assert(tt == head + seq![','] + rest);
        assert(text[j2] == ',') by {
            assert(text[i + head.len()] == tt[head.len() as int]);
            assert(j2 == i + head.len());
        }
        assert(!spec_extends_number(','));
        lemma_read_value(text, j1 + 1, val, depth, (fuel - 1) as nat);
        assert(spec_skip_ws(text, j2) == j2);
        assert forall|x: int| 0 <= x < rest.len() implies text[j2 + 1 + x] == #[trigger] rest[x] by {
            assert(text[i + (head.len() + 1 + x)] == tt[head.len() + 1 + x]);
            assert(tt[head.len() + 1 + x] == rest[x]);
        }
        assert(text[j2 + 1 + rest.len()] == '}') by {
            assert(j2 + 1 + rest.len() == i + tt.len());
        }
        lemma_read_obj_items(text, j2 + 1, fields, k + 1, depth, (fuel - 1) as nat, acc.push((key, val)));
        assert(acc.push((key, val)) + fields.skip(k + 1) =~= acc + fields.skip(k)) by {
            assert((key, val) == fields[k]);
        }
        assert(j2 + 1 + rest.len() + 1 == i + tt.len() + 1);
    }
}

/// The text-level document round trip: a document whose number tokens were
/// written by the crate's own formatters, nested no deeper than the
/// parser's bound and fitting under its length bound, parses from its own
/// compact serialization back to itself.
pub proof fn lemma_parse_emitted(v: JsonSpec)
    requires
        spec_writable(v),
        spec_doc_depth(v) <= MAX_DEPTH as nat,
        spec_emit_spec(v).len() < MAX_TEXT_LEN,
    ensures
        spec_parse_json(spec_emit_spec(v)) == Some(v),
{
    let text = spec_emit_spec(v);
    lemma_fuel_vs_len(v);
    let fuel = (2 * text.len() + 2) as nat;
    lemma_read_value(text, 0, v, MAX_DEPTH as nat, fuel);
    assert(spec_skip_ws(text, text.len() as int) == text.len() as int);
}

/// The one-per-line form is never shorter than the compact form.
proof fn lemma_pretty_fields_longer(fields: Seq<(Seq<char>, JsonSpec)>, k: int)
    requires
        0 <= k,
    ensures
        spec_pretty_fields(fields, k).len() >= spec_emit_spec_fields(fields, k).len(),
    decreases fields.len() - k,
{
    if k < fields.len() {
        lemma_pretty_fields_longer(fields, k + 1);
    }
}

/// Stepping through the members of an object written one per line: from
/// the newline before a member's indentation, with the closing brace after
/// the remaining members, the member reader returns the accumulated and
/// remaining members and stops after the brace.
#[verifier::rlimit(90)]
#[verifier::spinoff_prover]
proof fn lemma_read_pretty_fields(
    text: Seq<char>,
    i: int,
    fields: Seq<(Seq<char>, JsonSpec)>,
    k: int,
    depth: nat,
    fuel: nat,
    acc: Seq<(Seq<char>, JsonSpec)>,
)
    requires
        0 <= k < fields.len(),
        forall|x: int| 0 <= x < fields.len() ==> spec_writable((#[trigger] fields[x]).1),
        spec_fields_depth(fields, k) <= depth,
        spec_fields_fuel(fields, k) <= fuel,
        0 <= i,
        text[i] == '\n',
        i + 1 + spec_pretty_fields(fields, k).len() + 1 <= text.len(),
        forall|x: int|
            0 <= x < spec_pretty_fields(fields, k).len() ==> text[i + 1 + x]
                == #[trigger] spec_pretty_fields(fields, k)[x],
        text[i + 1 + spec_pretty_fields(fields, k).len()] == '}',
    ensures
        spec_parse_obj_items(text, i, depth, fuel, acc) == Some(
            (
                JsonSpec::Obj(acc + fields.skip(k)),
                i + 1 + spec_pretty_fields(fields, k).len() + 1,
            ),
        ),
    decreases fields, fields.len() - k,
{
    let tt = spec_pretty_fields(fields, k);
    let key = fields[k].0;
    let val = fields[k].1;
    let esc = spec_escape(key);
    let ev = spec_emit_spec(val);
    let sep: Seq<char> = if k == fields.len() - 1 {
        seq!['\n']
    } else {
        seq![',', '\n']
    };
    let head = seq![' ', ' ', '"'] + esc + seq!['"', ':', ' '] + ev;
    let rest = spec_pretty_fields(fields, k + 1);
    assert(',' as u32 == 0x2c && '}' as u32 == 0x7d && '"' as u32 == 0x22 && ':' as u32 == 0x3a
        && ' ' as u32 == 0x20 && '\n' as u32 == 0xa && '.' as u32 == 0x2e && 'e' as u32 == 0x65
        && 'E' as u32 == 0x45 && '+' as u32 == 0x2b && '-' as u32 == 0x2d);
    assert(spec_doc_depth(val) <= depth);
    assert(head.len() == esc.len() + 6 + ev.len());
    assert(tt == head + sep + rest);
    assert forall|x: int| 0 <= x < head.len() implies text[i + 1 + x] == #[trigger] head[x] by {
        assert(text[i + 1 + x] == tt[x]);
        assert(tt[x] == head[x]);
    }
    // the indentation, then the key literal
    assert(text[i + 1] == ' ' && text[i + 2] == ' ' && text[i + 3] == '"') by {
        assert(head[0] == ' ' && head[1] == ' ' && head[2] == '"');
    }
    lemma_skip_ws_run(text, i, i + 3);
    assert(text.subrange(i + 4, text.len() as int) =~= esc + seq!['"'] + text.subrange(
        i + esc.len() + 5,
        text.len() as int,
    )) by {
        assert forall|y: int| 0 <= y < text.len() - (i + 4) implies #[trigger] text.subrange(
            i + 4,
            text.len() as int,
        )[y] == (esc + seq!['"'] + text.subrange(i + esc.len() + 5, text.len() as int))[y] by {
            if y < esc.len() {
                assert(text[i + 1 + (3 + y)] == head[3 + y]);
                assert(head[3 + y] == esc[y]);
            } else if y == esc.len() {
                assert(text[i + 1 + (3 + y)] == head[3 + y]);
            }
        }
    }
    lemma_string_literal_round_trip(text, i + 4, key);
    let j1 = i + esc.len() + 5;
    // the colon and the space before the value
    assert(text[j1] == ':') by {
        assert(text[i + 1 + (esc.len() + 4)] == head[(esc.len() + 4) as int]);
    }
    assert(spec_skip_ws(text, j1) == j1);
    assert(text[j1 + 1] == ' ') by {
        assert(text[i + 1 + (esc.len() + 5)] == head[(esc.len() + 5) as int]);
    }
    // the value, behind the one space the writer puts there
    assert forall|x: int| 0 <= x < ev.len() implies text[j1 + 2 + x] == #[trigger] ev[x] by {
        assert(text[i + 1 + (esc.len() + 6 + x)] == tt[esc.len() + 6 + x]);
        assert(tt[esc.len() + 6 + x] == head[esc.len() + 6 + x]);
        assert(head[esc.len() + 6 + x] == ev[x]);
    }
    let j2 = j1 + 2 + ev.len();
    assert(text[j2] == sep[0]) by {
        assert(text[i + 1 + head.len()] == tt[head.len() as int]);
        assert(tt[head.len() as int] == sep[0]);
    }
    assert(!spec_extends_number(sep[0]));
    lemma_emit_first(val);
    lemma_read_value(text, j1 + 2, val, depth, (fuel - 1) as nat);
    assert(spec_skip_ws(text, j1 + 1) == j1 + 2);
    assert(spec_parse_value(text, j1 + 1, depth, (fuel - 1) as nat) == spec_parse_value(
        text,
        j1 + 2,
        depth,
        (fuel - 1) as nat,
    ));
    if k == fields.len() - 1 {
        assert(rest =~= Seq::<char>::empty());
        assert(tt.len() == head.len() + 1);
        assert(text[j2] == '\n');
        assert(text[j2 + 1] == '}') by {
            assert(j2 + 1 == i + 1 + tt.len());
        }
        lemma_skip_ws_run(text, j2, j2 + 1);
        assert(acc.push((key, val)) =~= acc + fields.skip(k)) by {
            assert(fields.skip(k).len() == 1);
            assert(fields.skip(k)[0] == fields[k]);
        }
        assert(j2 + 2 == i + 1 + tt.len() + 1);
    } else {
        assert(text[j2] == ',');
        assert(spec_skip_ws(text, j2) == j2);
        assert(text[j2 + 1] == '\n') by {
            assert(text[i + 1 + (head.len() + 1)] == tt[(head.len() + 1) as int]);
            assert(tt[(head.len() + 1) as int] == sep[1]);
        }
        assert forall|x: int| 0 <= x < rest.len() implies text[j2 + 2 + x] == #[trigger] rest[x] by {
            assert(text[i + 1 + (head.len() + 2 + x)] == tt[head.len() + 2 + x]);
            assert(tt[head.len() + 2 + x] == rest[x]);
        }
        assert(text[j2 + 1 + 1 + rest.len()] == '}') by {
            assert(j2 + 2 + rest.len() == i + 1 + tt.len());
        }
        lemma_read_pretty_fields(
            text,
            j2 + 1,
            fields,
            k + 1,
            depth,
            (fuel - 1) as nat,
            acc.push((key, val)),
        );
        assert(acc.push((key, val)) + fields.skip(k + 1) =~= acc + fields.skip(k)) by {
            assert((key, val) == fields[k]);
        }
        assert(j2 + 1 + 1 + rest.len() + 1 == i + 1 + tt.len() + 1);
    }
}

/// The text-level snapshot round trip: an object document written one
/// field per line parses back to itself, under the same conditions as the
/// compact form.
#[verifier::rlimit(100)]
#[verifier::spinoff_prover]
pub proof fn lemma_parse_emitted_pretty(fields: Seq<(Seq<char>, JsonSpec)>)
    requires
        spec_writable(JsonSpec::Obj(fields)),
        spec_doc_depth(JsonSpec::Obj(fields)) <= MAX_DEPTH as nat,
        spec_emit_pretty(JsonSpec::Obj(fields)).len() < MAX_TEXT_LEN,
    ensures
        spec_parse_json(spec_emit_pretty(JsonSpec::Obj(fields))) == Some(JsonSpec::Obj(fields)),
{
    let text = spec_emit_pretty(JsonSpec::Obj(fields));
    let fuel = (2 * text.len() + 2) as nat;
    assert('{' as u32 == 0x7b && '}' as u32 == 0x7d && '\n' as u32 == 0xa && ' ' as u32 == 0x20
        && '"' as u32 == 0x22);
    if fields.len() == 0 {
        assert(text =~= seq!['{', '}']);
        assert(spec_skip_ws(text, 0) == 0);
        assert(spec_skip_ws(text, 1) == 1);
        assert(spec_skip_ws(text, 2) == 2);
        assert(fields =~= Seq::<(Seq<char>, JsonSpec)>::empty());
    } else {
        let pf = spec_pretty_fields(fields, 0);
        assert(text =~= seq!['{', '\n'] + pf + seq!['}']);
        assert(spec_skip_ws(text, 0) == 0);
        assert(pf[0] == ' ' && pf[1] == ' ' && pf[2] == '"') by {
            let head = seq![' ', ' ', '"'] + spec_escape(fields[0].0) + seq!['"', ':', ' ']
                + spec_emit_spec(fields[0].1);
            assert(pf[0] == head[0] && pf[1] == head[1] && pf[2] == head[2]);
        }
        assert(text[1] == '\n' && text[2] == ' ' && text[3] == ' ' && text[4] == '"') by {
            assert(text[2] == pf[0] && text[3] == pf[1] && text[4] == pf[2]);
        }
        lemma_skip_ws_run(text, 1, 4);
        assert(text[4] != '}');
        lemma_fields_fuel_vs_len(fields, 0);
        lemma_pretty_fields_longer(fields, 0);
        assert forall|x: int| 0 <= x < pf.len() implies text[1 + 1 + x] == #[trigger] pf[x] by {
            assert(text[2 + x] == (seq!['{', '\n'] + pf + seq!['}'])[2 + x]);
        }
        assert(text[(1 + 1 + pf.len()) as int] == '}') by {
            assert(text[(2 + pf.len()) as int] == (seq!['{', '\n'] + pf + seq!['}'])[(2
                + pf.len()) as int]);
        }
        lemma_read_pretty_fields(
            text,
            1,
            fields,
            0,
            (MAX_DEPTH - 1) as nat,
            (fuel - 1) as nat,
            Seq::empty(),
        );
        assert(Seq::<(Seq<char>, JsonSpec)>::empty() + fields.skip(0) =~= fields);
        assert(spec_skip_ws(text, text.len() as int) == text.len() as int);
    }
}

/// A bound on every element's depth bounds the elements' joint depth.
pub proof fn lemma_items_depth_le(items: Seq<JsonSpec>, k: int, d: nat)
    requires
        0 <= k,
        forall|x: int| k <= x < items.len() ==> spec_doc_depth(#[trigger] items[x]) <= d,
    ensures
        spec_items_depth(items, k) <= d,
    decreases items.len() - k,
{
    if k < items.len() {
        lemma_items_depth_le(items, k + 1, d);
    }
}

/// A bound on every field value's depth bounds the fields' joint depth.
pub proof fn lemma_fields_depth_le(fields: Seq<(Seq<char>, JsonSpec)>, k: int, d: nat)
    requires
        0 <= k,
        forall|x: int| k <= x < fields.len() ==> spec_doc_depth((#[trigger] fields[x]).1) <= d,
    ensures
        spec_fields_depth(fields, k) <= d,
    decreases fields.len() - k,
{
    if k < fields.len() {
        lemma_fields_depth_le(fields, k + 1, d);
    }
}

} // verus!
