use minigrep::{has_ignore_case, Config, ConfigError};

fn strings(items: &[&str]) -> Vec<String> {
    items.iter().map(|s| s.to_string()).collect()
}

fn env(pairs: &[(&str, &str)]) -> Vec<(String, String)> {
    pairs.iter().map(|(k, v)| (k.to_string(), v.to_string())).collect()
}

#[test]
fn only_program_name_is_not_enough() {
    let r = Config::build(strings(&["prog"]), &env(&[]));
    assert_eq!(ConfigError::InsufficientArguments, r.unwrap_err());
}

#[test]
fn no_arguments_at_all_is_not_enough() {
    let r = Config::build(Vec::new(), &env(&[]));
    assert_eq!(ConfigError::InsufficientArguments, r.unwrap_err());
}

#[test]
fn query_without_path_is_not_enough() {
    let r = Config::build(strings(&["prog", "needle"]), &env(&[("IGNORE_CASE", "1")]));
    assert_eq!(ConfigError::InsufficientArguments, r.unwrap_err());
}

#[test]
fn error_message() {
    assert_eq!("not enough arguments", ConfigError::InsufficientArguments.message());
}

#[test]
fn query_and_path_are_taken_in_order() {
    let c = Config::build(strings(&["prog", "needle", "hay.txt"]), &env(&[])).unwrap();
    assert_eq!("needle", c.query);
    assert_eq!("hay.txt", c.file_path);
    assert!(!c.ignore_case);
}

#[test]
fn extra_arguments_are_ignored() {
    let c = Config::build(strings(&["prog", "a", "b", "c", "d"]), &env(&[])).unwrap();
    assert_eq!("a", c.query);
    assert_eq!("b", c.file_path);
}

#[test]
fn empty_values_are_accepted() {
    let c = Config::build(strings(&["prog", "", ""]), &env(&[])).unwrap();
    assert_eq!("", c.query);
    assert_eq!("", c.file_path);
}

#[test]
fn ignore_case_set_to_empty_string() {
    let c = Config::build(strings(&["prog", "q", "f"]), &env(&[("IGNORE_CASE", "")])).unwrap();
    assert!(c.ignore_case);
}

#[test]
fn ignore_case_value_is_not_parsed() {
    let c = Config::build(
        strings(&["prog", "q", "f"]),
        &env(&[("HOME", "/root"), ("IGNORE_CASE", "0")]),
    )
    .unwrap();
    assert!(c.ignore_case);
}

#[test]
fn other_variables_do_not_set_ignore_case() {
    let c = Config::build(
        strings(&["prog", "q", "f"]),
        &env(&[("ignore_case", "1"), ("IGNORE_CASE_X", "1"), ("PATH", "/bin")]),
    )
    .unwrap();
    assert!(!c.ignore_case);
}

#[test]
fn has_ignore_case_looks_at_names_only() {
    assert!(has_ignore_case(&env(&[("A", "IGNORE_CASE"), ("IGNORE_CASE", "x")])));
    assert!(!has_ignore_case(&env(&[("A", "IGNORE_CASE")])));
    assert!(!has_ignore_case(&env(&[])));
}
