use flow::template::{build_template_vars, expand_template};

fn vars(pairs: &[(&str, &str)]) -> Vec<(String, String)> {
    pairs.iter().map(|(k, v)| (k.to_string(), v.to_string())).collect()
}

fn get<'a>(list: &'a [(String, String)], key: &str) -> Option<&'a str> {
    list.iter().rev().find(|(k, _)| k == key).map(|(_, v)| v.as_str())
}

#[test]
fn test_no_variables_returns_unchanged() {
    let result = expand_template("Hello world", &Vec::new());
    assert_eq!(result, "Hello world");
}

#[test]
fn test_single_variable_expanded() {
    let result = expand_template("Hello {{name}}", &vars(&[("name", "world")]));
    assert_eq!(result, "Hello world");
}

#[test]
fn test_multiple_variables_expanded() {
    let result = expand_template("{{greeting}} {{name}}!", &vars(&[("greeting", "Hi"), ("name", "Alice")]));
    assert_eq!(result, "Hi Alice!");
}

#[test]
fn test_same_variable_used_twice() {
    let result = expand_template("{{x}} and {{x}}", &vars(&[("x", "a")]));
    assert_eq!(result, "a and a");
}

#[test]
fn test_unknown_variable_left_as_is() {
    let result = expand_template("{{unknown}}", &Vec::new());
    assert_eq!(result, "{{unknown}}");
}

#[test]
fn test_empty_template_returns_empty() {
    let result = expand_template("", &vars(&[("x", "y")]));
    assert_eq!(result, "");
}

#[test]
fn test_variable_at_start_and_end() {
    let result = expand_template("{{a}}middle{{b}}", &vars(&[("a", "start-"), ("b", "-end")]));
    assert_eq!(result, "start-middle-end");
}

#[test]
fn test_adjacent_variables() {
    let result = expand_template("{{a}}{{b}}", &vars(&[("a", "x"), ("b", "y")]));
    assert_eq!(result, "xy");
}

#[test]
fn test_partial_syntax_not_expanded() {
    let result = expand_template("{{incomplete", &Vec::new());
    assert_eq!(result, "{{incomplete");
}

#[test]
fn test_whitespace_in_var_name_not_matched() {
    let result = expand_template("{{ name }}", &vars(&[("name", "world")]));
    assert_eq!(result, "{{ name }}");
}

#[test]
fn test_build_template_vars_includes_builtins() {
    let custom = vars(&[("project_name", "flow")]);
    let result = build_template_vars(&custom, "/tmp/project", "TODO.md", "coding", "", 1, 20);
    assert_eq!(get(&result, "project_dir").unwrap(), "/tmp/project");
    assert_eq!(get(&result, "todo_file").unwrap(), "TODO.md");
    assert_eq!(get(&result, "cycle_name").unwrap(), "coding");
    assert_eq!(get(&result, "step_name").unwrap(), "");
    assert_eq!(get(&result, "iteration").unwrap(), "1");
    assert_eq!(get(&result, "max_iterations").unwrap(), "20");
    assert_eq!(get(&result, "project_name").unwrap(), "flow");
}

#[test]
fn test_build_template_vars_builtins_override_custom() {
    let custom = vars(&[("cycle_name", "user-defined"), ("custom_key", "custom_val")]);
    let result = build_template_vars(&custom, "/tmp", "TODO.md", "coding", "plan", 3, 10);
    assert_eq!(get(&result, "cycle_name").unwrap(), "coding");
    assert_eq!(get(&result, "custom_key").unwrap(), "custom_val");
}

#[test]
fn test_builtin_vars_override_custom() {
    let mut v = vars(&[("cycle_name", "user-defined")]);
    v.push(("cycle_name".to_string(), "coding".to_string()));
    let result = expand_template("Running {{cycle_name}}", &v);
    assert_eq!(result, "Running coding");
}

#[test]
fn test_realistic_prompt_template() {
    let v = vars(&[
        ("cycle_name", "coding"),
        ("project_name", "flow"),
        ("iteration", "3"),
        ("max_iterations", "20"),
    ]);
    let template = "You are {{project_name}}'s {{cycle_name}} cycle. Iteration {{iteration}}/{{max_iterations}}.";
    let result = expand_template(template, &v);
    assert_eq!(result, "You are flow's coding cycle. Iteration 3/20.");
}
