use spacerun::template::CommandTask;
use spacerun::variables::VariableValues;

fn task(s: &str) -> CommandTask {
    match CommandTask::from_str(s) {
        Ok(t) => t,
        Err(_) => panic!("every text is a template"),
    }
}

fn names(t: &CommandTask) -> Vec<String> {
    t.variables.iter().map(|v| v.name.clone()).collect()
}

fn values(pairs: &[(&str, &str)]) -> VariableValues {
    let mut v = VariableValues::new();
    for (k, x) in pairs {
        v.insert(k.to_string(), x.to_string());
    }
    v
}

#[test]
fn template_variables_in_first_occurrence_order() {
    let t = task("echo {{b}} {{a}} {{b}}");
    assert_eq!(t.base, "echo {{b}} {{a}} {{b}}");
    assert_eq!(names(&t), vec!["b", "a"]);
    assert!(t.variables.iter().all(|v| v.default_value.is_none()));
}

#[test]
fn template_without_placeholders_has_no_variables() {
    assert!(task("ls -la").variables.is_empty());
    assert!(task("").variables.is_empty());
    assert!(task("{{}}").variables.is_empty());
    assert!(task("{{a\nb}}").variables.is_empty());
    assert!(task("{{open").variables.is_empty());
}

#[test]
fn placeholder_ends_at_first_closing_pair() {
    assert_eq!(names(&task("{{}}}")), vec!["}"]);
    assert_eq!(names(&task("{{{a}}")), vec!["{a"]);
    assert_eq!(names(&task("{{a}}}}")), vec!["a"]);
    assert_eq!(names(&task("{{x y}}")), vec!["x y"]);
}

#[test]
fn bound_value_is_substituted() {
    let t = task("echo {{msg}}");
    assert_eq!(t.to_executable_string(&values(&[("msg", "hi")])), Ok("echo hi".to_string()));
}

#[test]
fn missing_value_is_a_template_error() {
    let t = task("echo {{msg}}");
    let e = t.to_executable_string(&VariableValues::new()).unwrap_err();
    assert_eq!(e.variable, "msg");
}

#[test]
fn first_missing_variable_is_named() {
    let t = task("cp {{from}} {{to}}");
    let e = t.to_executable_string(&values(&[("to", "/tmp")])).unwrap_err();
    assert_eq!(e.variable, "from");
    let e = t.to_executable_string(&values(&[("from", "a")])).unwrap_err();
    assert_eq!(e.variable, "to");
}

#[test]
fn every_occurrence_is_substituted() {
    let t = task("{{x}}-{{y}}-{{x}}");
    assert_eq!(
        t.to_executable_string(&values(&[("y", "2"), ("x", "1")])),
        Ok("1-2-1".to_string())
    );
}

#[test]
fn values_are_inserted_verbatim() {
    let t = task("echo {{a}} {{b}}");
    assert_eq!(
        t.to_executable_string(&values(&[("a", "{{b}}"), ("b", "$(x); 'y'")])),
        Ok("echo {{b}} $(x); 'y'".to_string())
    );
}

#[test]
fn undeclared_placeholders_stay() {
    let mut t = task("echo {{a}} {{b}}");
    t.variables.truncate(1);
    assert_eq!(
        t.to_executable_string(&values(&[("a", "1"), ("b", "2")])),
        Ok("echo 1 {{b}}".to_string())
    );
}

#[test]
fn template_without_variables_runs_as_written() {
    let t = task("echo {{}} done");
    assert_eq!(t.to_executable_string(&VariableValues::new()), Ok("echo {{}} done".to_string()));
    assert_eq!(t.to_string(), "echo {{}} done");
}

#[test]
fn values_replace_in_place_and_append_new_names() {
    let mut v = VariableValues::new();
    v.insert("a".to_string(), "1".to_string());
    v.insert("b".to_string(), "2".to_string());
    v.insert("a".to_string(), "3".to_string());
    assert_eq!(
        v.entries().clone(),
        vec![("a".to_string(), "3".to_string()), ("b".to_string(), "2".to_string())]
    );
    assert_eq!(v.get(&"a".to_string()), Some(&"3".to_string()));
    assert_eq!(v.get(&"c".to_string()), None);
}

#[test]
fn template_errors_have_messages() {
    let e = task("echo {{msg}}").to_executable_string(&VariableValues::new()).unwrap_err();
    assert_eq!(
        e.to_string(),
        "Could not replace the placeholders in the command: no value for msg"
    );
    assert_eq!(spacerun::template::CommandTaskParseError.to_string(), "Failed to parse a command task");
}
