use tgin::subst::{substitute_env_vars, EnvTable};

fn env(pairs: &[(&str, &str)]) -> EnvTable {
    EnvTable::new(
        pairs
            .iter()
            .map(|(k, v)| (k.as_bytes().to_vec(), v.as_bytes().to_vec()))
            .collect(),
    )
}

fn subst_str(input: &str, table: &EnvTable) -> Result<String, String> {
    match substitute_env_vars(&input.as_bytes().to_vec(), table) {
        Ok(out) => Ok(String::from_utf8(out).unwrap()),
        Err(name) => Err(String::from_utf8(name).unwrap()),
    }
}

#[test]
fn substitutes_single_reference() {
    let table = env(&[("TOKEN", "abc123")]);
    assert_eq!(subst_str("key: ${TOKEN}!", &table), Ok("key: abc123!".to_string()));
}

#[test]
fn substitutes_adjacent_references() {
    let table = env(&[("A", "1"), ("B_2", "2")]);
    assert_eq!(subst_str("${A}${B_2}", &table), Ok("12".to_string()));
}

#[test]
fn missing_variable_is_an_error() {
    let table = env(&[("A", "1")]);
    assert_eq!(subst_str("x ${MISSING} y", &table), Err("MISSING".to_string()));
}

#[test]
fn non_references_are_copied() {
    let table = env(&[("A", "1")]);
    // no name, no closing brace, bare dollar: all copied unchanged
    assert_eq!(subst_str("${} ${A $A {A}", &table), Ok("${} ${A $A {A}".to_string()));
}

#[test]
fn empty_input_stays_empty() {
    let table = env(&[]);
    assert_eq!(subst_str("", &table), Ok(String::new()));
}

#[test]
fn first_binding_wins() {
    let table = env(&[("A", "first"), ("A", "second")]);
    assert_eq!(subst_str("${A}", &table), Ok("first".to_string()));
}

#[test]
fn replacement_value_may_contain_dollar() {
    // replacement text is not scanned again
    let table = env(&[("A", "${B}"), ("B", "nope")]);
    assert_eq!(subst_str("${A}", &table), Ok("${B}".to_string()));
}
