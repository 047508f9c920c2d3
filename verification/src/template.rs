//! Prompt template expansion: literal `{{name}}` substitution.

use vstd::prelude::*;

use crate::text::{
    spec_assoc_lookup, spec_find_at, spec_format_nat, spec_is_ws, view_pairs, chars_of, find_at,
    format_u64, is_ws, slice_range, string_from_chars,
};

verus! {

/// A usable variable name: non-empty and free of whitespace.
pub open spec fn spec_name_ok(name: Seq<char>) -> bool {
    name.len() > 0 && forall|i: int| 0 <= i < name.len() ==> !spec_is_ws(#[trigger] name[i])
}

/// Expand `t[i..]` onto `acc`: a `{{name}}` whose name is usable and bound
/// is replaced by its value; a usable but unbound name stays verbatim; an
/// opening brace pair without a usable close is emitted as it stands.
pub open spec fn spec_expand_from(
    t: Seq<char>,
    vars: Seq<(Seq<char>, Seq<char>)>,
    i: int,
    acc: Seq<char>,
) -> Seq<char>
    decreases t.len() - i,
{
    if !(0 <= i < t.len()) {
        acc
    } else if i + 1 < t.len() && t[i] == '{' && t[i + 1] == '{' {
        match spec_find_at(t, seq!['}', '}'], i + 2) {
            Some(close) => {
                if i + 2 <= close && close + 2 <= t.len() {
                    let name = t.subrange(i + 2, close);
                    if spec_name_ok(name) {
                        match spec_assoc_lookup(vars, name) {
                            Some(v) => spec_expand_from(t, vars, close + 2, acc + v),
                            None => spec_expand_from(
                                t,
                                vars,
                                close + 2,
                                acc + t.subrange(i, close + 2),
                            ),
                        }
                    } else {
                        spec_expand_from(t, vars, i + 2, acc + seq!['{', '{'])
                    }
                } else {
                    acc
                }
            },
            None => spec_expand_from(t, vars, i + 2, acc + seq!['{', '{']),
        }
    } else {
        spec_expand_from(t, vars, i + 1, acc.push(t[i]))
    }
}

/// The expansion of a whole template.
pub open spec fn spec_expand(t: Seq<char>, vars: Seq<(Seq<char>, Seq<char>)>) -> Seq<char> {
    spec_expand_from(t, vars, 0, Seq::empty())
}

/// Expand `{{name}}` patterns in a template from a variable list, later
/// bindings shadowing earlier ones.
pub fn expand_template(template: &str, vars: &Vec<(String, String)>) -> (r: String)
    ensures
        r@ == spec_expand(template@, view_pairs(vars@)),
{
    let t = chars_of(template);
    let close_lit = chars_of("}}");
    proof {
        reveal_strlit("}}");
        assert(close_lit@ =~= seq!['}', '}']);
    }
    let ghost vp = view_pairs(vars@);
    let mut out: Vec<char> = Vec::new();
    let mut i: usize = 0;
    while i < t.len()
        invariant
            i <= t@.len(),
            close_lit@ == seq!['}', '}'],
            spec_expand(t@, vp) == spec_expand_from(t@, vp, i as int, out@),
        decreases t@.len() - i,
    {
        let ghost pre = out@;
        if i + 1 < t.len() && t[i] == '{' && t[i + 1] == '{' {
            match find_at(&t, &close_lit, i + 2) {
                Some(close) => {
                    let name = slice_range(&t, i + 2, close);
                    if name_ok(&name) {
                        match crate::text::assoc_lookup(vars, &name) {
                            Some(v) => {
                                let vchars = chars_of(v.as_str());
                                let mut x: usize = 0;
                                while x < vchars.len()
                                    invariant
                                        x <= vchars@.len(),
                                        out@ == pre + vchars@.take(x as int),
                                    decreases vchars@.len() - x,
                                {
                                    out.push(vchars[x]);
                                    proof {
                                        assert(vchars@.take(x + 1) =~= vchars@.take(x as int).push(
                                            vchars@[x as int],
                                        ));
                                    }
                                    x = x + 1;
                                }
                                proof {
                                    assert(vchars@.take(vchars@.len() as int) =~= vchars@);
                                    assert(out@ =~= pre + v@);
                                }
                            },
                            None => {
                                let mut x: usize = i;
                                while x < close + 2
                                    invariant
                                        i <= x <= close + 2 <= t@.len(),
                                        out@ == pre + t@.subrange(i as int, x as int),
                                    decreases close + 2 - x,
                                {
                                    out.push(t[x]);
                                    proof {
                                        assert(t@.subrange(i as int, x + 1) =~= t@.subrange(
                                            i as int,
                                            x as int,
                                        ).push(t@[x as int]));
                                    }
                                    x = x + 1;
                                }
                            },
                        }
                        i = close + 2;
                    } else {
                        out.push('{');
                        out.push('{');
                        proof {
                            assert(out@ =~= pre + seq!['{', '{']);
                        }
                        i = i + 2;
                    }
                },
                None => {
                    out.push('{');
                    out.push('{');
                    proof {
                        assert(out@ =~= pre + seq!['{', '{']);
                    }
                    i = i + 2;
                },
            }
        } else {
            out.push(t[i]);
            i = i + 1;
        }
    }
    string_from_chars(&out)
}

/// Is the name non-empty and free of whitespace?
fn name_ok(name: &Vec<char>) -> (r: bool)
    ensures
        r == spec_name_ok(name@),
{
    if name.len() == 0 {
        return false;
    }
    let mut i: usize = 0;
    while i < name.len()
        invariant
            i <= name@.len(),
            forall|j: int| 0 <= j < i ==> !spec_is_ws(#[trigger] name@[j]),
        decreases name@.len() - i,
    {
        if is_ws(name[i]) {
            return false;
        }
        i = i + 1;
    }
    true
}

/// The six built-in variables for one invocation.
pub open spec fn spec_builtin_vars(
    project_dir: Seq<char>,
    todo_file: Seq<char>,
    cycle_name: Seq<char>,
    step_name: Seq<char>,
    iteration: u32,
    max_iterations: u32,
) -> Seq<(Seq<char>, Seq<char>)> {
    seq![
        ("project_dir"@, project_dir),
        ("todo_file"@, todo_file),
        ("cycle_name"@, cycle_name),
        ("step_name"@, step_name),
        ("iteration"@, spec_format_nat(iteration as nat)),
        ("max_iterations"@, spec_format_nat(max_iterations as nat)),
    ]
}

/// Build the variable list for one invocation: the custom variables first,
/// then the built-ins, which therefore shadow them.
pub fn build_template_vars(
    custom_vars: &Vec<(String, String)>,
    project_dir: &str,
    todo_file: &str,
    cycle_name: &str,
    step_name: &str,
    iteration: u32,
    max_iterations: u32,
) -> (r: Vec<(String, String)>)
    ensures
        view_pairs(r@) == view_pairs(custom_vars@) + spec_builtin_vars(
            project_dir@,
            todo_file@,
            cycle_name@,
            step_name@,
            iteration,
            max_iterations,
        ),
{
    let mut r: Vec<(String, String)> = Vec::new();
    let mut k: usize = 0;
    while k < custom_vars.len()
        invariant
            k <= custom_vars@.len(),
            view_pairs(r@) == view_pairs(custom_vars@).take(k as int),
        decreases custom_vars@.len() - k,
    {
        let ghost pre = view_pairs(r@);
        let key = crate::stream::clone_string(&custom_vars[k].0);
        let val = crate::stream::clone_string(&custom_vars[k].1);
        r.push((key, val));
        proof {
            assert(view_pairs(r@) =~= pre.push(view_pairs(custom_vars@)[k as int]));
            assert(view_pairs(custom_vars@).take(k + 1) =~= view_pairs(custom_vars@).take(
                k as int,
            ).push(view_pairs(custom_vars@)[k as int]));
        }
        k = k + 1;
    }
    proof {
        assert(view_pairs(custom_vars@).take(custom_vars@.len() as int) =~= view_pairs(
            custom_vars@,
        ));
    }
    let ghost base = view_pairs(r@);
    r.push(("project_dir".to_owned(), project_dir.to_owned()));
    r.push(("todo_file".to_owned(), todo_file.to_owned()));
    r.push(("cycle_name".to_owned(), cycle_name.to_owned()));
    r.push(("step_name".to_owned(), step_name.to_owned()));
    r.push(("iteration".to_owned(), crate::text::format_u64_string(iteration as u64)));
    r.push(("max_iterations".to_owned(), crate::text::format_u64_string(max_iterations as u64)));
    proof {
        assert(view_pairs(r@) =~= base + spec_builtin_vars(
            project_dir@,
            todo_file@,
            cycle_name@,
            step_name@,
            iteration,
            max_iterations,
        ));
    }
    r
}

} // verus!
