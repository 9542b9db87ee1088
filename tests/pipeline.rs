use pathsplit::entries::{all_entries, keep_flagged, select_entries, split_entries, unique_entries};
use pathsplit::error::ToolError;
use pathsplit::pattern::Pattern;
use pathsplit::run::{run, Config};
use pathsplit::variables::{all_set_variables_values, requested_names, variable_values, EnvVar};

fn var(name: &str, value: &str) -> EnvVar {
    EnvVar { name: Some(name.to_string()), value: Some(value.to_string()) }
}

fn strings(items: &[&str]) -> Vec<String> {
    items.iter().map(|s| s.to_string()).collect()
}

fn config() -> Config {
    Config::default()
}

#[test]
fn default_prints_path_entries() {
    let env = vec![var("HOME", "/root"), var("PATH", "/usr/bin:/bin")];
    let lines = run(&config(), &env).ok().unwrap();
    assert_eq!(lines, strings(&["/usr/bin", "/bin"]));
}

#[test]
fn separator_override() {
    let env = vec![var("PATH", "/a;/b")];
    let mut c = config();
    c.separator = ';';
    assert_eq!(run(&c, &env).ok().unwrap(), strings(&["/a", "/b"]));
}

#[test]
fn regex_filter_keeps_matches() {
    let env = vec![var("PATH", "/usr/bin:/opt/foo")];
    let mut c = config();
    c.pattern = "foo".to_string();
    assert_eq!(run(&c, &env).ok().unwrap(), strings(&["/opt/foo"]));
}

#[test]
fn regex_filter_searches_anywhere_unless_anchored() {
    let env = vec![var("PATH", "/usr/bin:/opt/bin/x:/binary")];
    let mut c = config();
    c.pattern = "bin".to_string();
    assert_eq!(run(&c, &env).ok().unwrap(), strings(&["/usr/bin", "/opt/bin/x", "/binary"]));
    c.pattern = "bin$".to_string();
    assert_eq!(run(&c, &env).ok().unwrap(), strings(&["/usr/bin"]));
}

#[test]
fn unset_variable_is_skipped() {
    let env = vec![var("PATH", "/usr/bin")];
    let mut c = config();
    c.variable_names = strings(&["FOO_UNSET_VAR"]);
    assert_eq!(run(&c, &env).ok().unwrap(), Vec::<String>::new());
}

#[test]
fn unset_variable_fails_when_asked() {
    let env = vec![var("PATH", "/usr/bin")];
    let mut c = config();
    c.variable_names = strings(&["FOO_UNSET_VAR"]);
    c.fail_on_unset = true;
    match run(&c, &env) {
        Err(ToolError::UnsetVariable { name }) => assert_eq!(name, "FOO_UNSET_VAR"),
        _ => panic!("expected an unset-variable error"),
    }
}

#[test]
fn unset_error_prints_nothing_even_after_set_variables() {
    let env = vec![var("A", "x:y")];
    let r = variable_values(&env, &strings(&["A", "B"]), true);
    match r {
        Err(ToolError::UnsetVariable { name }) => assert_eq!(name, "B"),
        _ => panic!("expected an unset-variable error"),
    }
}

#[test]
fn all_variables_covers_every_variable() {
    let env = vec![var("PATH", "/usr/bin:/bin"), var("HOME", "/root"), var("EMPTY", "")];
    let mut c = config();
    c.all_variables = true;
    c.variable_names = strings(&["IGNORED"]);
    let lines = run(&c, &env).ok().unwrap();
    assert_eq!(lines, strings(&["/usr/bin", "/bin", "/root", ""]));
}

#[test]
fn plain_count_equals_matching_entries() {
    let env = vec![var("A", "x1:y:x2"), var("B", "x1::z")];
    let mut c = config();
    c.variable_names = strings(&["A", "B"]);
    c.pattern = "x".to_string();
    let lines = run(&c, &env).ok().unwrap();
    assert_eq!(lines.len(), 3);
    assert_eq!(lines, strings(&["x1", "x2", "x1"]));
}

#[test]
fn unique_keeps_first_occurrences() {
    let env = vec![var("A", "/b:/a:/b:/c:/a"), var("B", "/c:/d")];
    let mut c = config();
    c.variable_names = strings(&["A", "B"]);
    c.unique = true;
    assert_eq!(run(&c, &env).ok().unwrap(), strings(&["/b", "/a", "/c", "/d"]));
    c.unique = false;
    assert_eq!(
        run(&c, &env).ok().unwrap(),
        strings(&["/b", "/a", "/b", "/c", "/a", "/c", "/d"])
    );
}

#[test]
fn same_inputs_same_output() {
    let env = vec![var("PATH", "/a:/b:/a"), var("X", "1")];
    let mut c = config();
    c.unique = true;
    let first = run(&c, &env).ok().unwrap();
    let second = run(&c, &env).ok().unwrap();
    assert_eq!(first, second);
}

#[test]
fn invalid_pattern_reported_before_reading() {
    let env = vec![EnvVar { name: Some("PATH".to_string()), value: None }];
    let mut c = config();
    c.pattern = "(".to_string();
    match run(&c, &env) {
        Err(ToolError::InvalidPattern { pattern }) => assert_eq!(pattern, "("),
        _ => panic!("expected an invalid-pattern error"),
    }
}

#[test]
fn undecodable_value_is_fatal_even_without_fail_unset() {
    let env = vec![EnvVar { name: Some("PATH".to_string()), value: None }];
    match run(&config(), &env) {
        Err(ToolError::UndecodableValue { name }) => assert_eq!(name, "PATH"),
        _ => panic!("expected an undecodable-value error"),
    }
}

#[test]
fn all_variables_undecodable_value_and_name() {
    let env = vec![var("A", "1"), EnvVar { name: Some("B".to_string()), value: None }];
    match all_set_variables_values(&env) {
        Err(ToolError::UndecodableValue { name }) => assert_eq!(name, "B"),
        _ => panic!("expected an undecodable-value error"),
    }
    let env = vec![EnvVar { name: None, value: Some("ok".to_string()) }, EnvVar { name: None, value: None }];
    match all_set_variables_values(&env) {
        Err(ToolError::UnreadableName) => {}
        _ => panic!("expected an unreadable-name error"),
    }
}

#[test]
fn all_variables_keeps_values_with_unreadable_names() {
    let env = vec![EnvVar { name: None, value: Some("v".to_string()) }, var("A", "w")];
    assert_eq!(all_set_variables_values(&env).ok().unwrap(), strings(&["v", "w"]));
}

#[test]
fn named_lookup_takes_first_of_equal_names() {
    let env = vec![var("P", "first"), var("P", "second")];
    assert_eq!(variable_values(&env, &strings(&["P"]), false).ok().unwrap(), strings(&["first"]));
}

#[test]
fn named_values_follow_request_order() {
    let env = vec![var("A", "1"), var("B", "2")];
    assert_eq!(
        variable_values(&env, &strings(&["B", "MISSING", "A", "B"]), false).ok().unwrap(),
        strings(&["2", "1", "2"])
    );
}

#[test]
fn requested_names_default_to_path() {
    assert_eq!(requested_names(&Vec::new()), strings(&["PATH"]));
    assert_eq!(requested_names(&strings(&["X", "Y"])), strings(&["X", "Y"]));
}

#[test]
fn config_defaults() {
    let c = Config::default();
    assert!(c.variable_names.is_empty());
    assert_eq!(c.pattern, ".*");
    assert_eq!(c.separator, ':');
    assert!(!c.unique && !c.all_variables && !c.fail_on_unset);
}

#[test]
fn split_keeps_empty_entries() {
    assert_eq!(split_entries("", ':'), strings(&[""]));
    assert_eq!(split_entries("::", ':'), strings(&["", "", ""]));
    assert_eq!(split_entries(":a:", ':'), strings(&["", "a", ""]));
    assert_eq!(split_entries("é:ü/x", ':'), strings(&["é", "ü/x"]));
    assert_eq!(split_entries("a:b", ';'), strings(&["a:b"]));
}

#[test]
fn all_entries_concatenates_in_order() {
    assert_eq!(all_entries(&strings(&["a:b", "c"]), ':'), strings(&["a", "b", "c"]));
    assert_eq!(all_entries(&Vec::new(), ':'), Vec::<String>::new());
}

#[test]
fn keep_flagged_selects_flagged() {
    let entries = strings(&["a", "b", "c"]);
    assert_eq!(keep_flagged(&entries, &vec![true, false, true]), strings(&["a", "c"]));
}

#[test]
fn unique_entries_removes_later_repeats() {
    assert_eq!(unique_entries(strings(&["x", "y", "x", "z", "y"])), strings(&["x", "y", "z"]));
}

#[test]
fn select_entries_filters_and_dedups() {
    let p = Pattern::new("^/u").unwrap();
    assert_eq!(p.source(), "^/u");
    let values = strings(&["/usr/bin:/bin:/usr/bin", "/usr/local"]);
    assert_eq!(select_entries(&values, ':', &p, false), strings(&["/usr/bin", "/usr/bin", "/usr/local"]));
    assert_eq!(select_entries(&values, ':', &p, true), strings(&["/usr/bin", "/usr/local"]));
}

#[test]
fn pattern_rejects_invalid_regex() {
    assert!(Pattern::new("[").is_none());
    assert!(Pattern::new(".*").is_some());
}

#[test]
fn error_messages() {
    let e = ToolError::UnsetVariable { name: "X".to_string() };
    assert_eq!(e.message(), "environment variable is unset: X");
    let e = ToolError::UndecodableValue { name: "Y".to_string() };
    assert_eq!(e.message(), "could not read value of environment variable Y");
    let e = ToolError::InvalidPattern { pattern: "(".to_string() };
    assert_eq!(e.message(), "invalid regular expression: (");
    assert_eq!(
        ToolError::UnreadableName.message(),
        "could not read value of an environment variable whose name is unreadable too"
    );
}
