use minishell::environment::Environment;

fn listing(env: &Environment) -> Vec<(String, String)> {
    (0..env.len())
        .map(|i| (env.name_at(i).to_string(), env.value_at(i).to_string()))
        .collect()
}

fn pair(k: &str, v: &str) -> (String, String) {
    (k.to_string(), v.to_string())
}

#[test]
fn new_environment_is_empty() {
    let env = Environment::new();
    assert_eq!(env.len(), 0);
    assert_eq!(env.get("HOME"), None);
}

#[test]
fn set_then_get() {
    let mut env = Environment::new();
    assert!(env.set("A", "1"));
    assert!(env.set("B", ""));
    assert_eq!(env.get("A"), Some("1".to_string()));
    assert_eq!(env.get("B"), Some(String::new()));
    assert_eq!(env.get("C"), None);
    assert_eq!(env.get("a"), None);
}

#[test]
fn set_again_keeps_the_place() {
    let mut env = Environment::new();
    env.set("A", "1");
    env.set("B", "2");
    env.set("A", "3");
    assert_eq!(listing(&env), vec![pair("A", "3"), pair("B", "2")]);
}

#[test]
fn remove_takes_the_name_out() {
    let mut env = Environment::new();
    env.set("A", "1");
    env.set("B", "2");
    env.set("C", "3");
    env.remove("B");
    assert_eq!(listing(&env), vec![pair("A", "1"), pair("C", "3")]);
    assert_eq!(env.get("B"), None);
    env.remove("B");
    env.remove("nothing");
    assert_eq!(env.len(), 2);
    env.set("B", "4");
    assert_eq!(listing(&env), vec![pair("A", "1"), pair("C", "3"), pair("B", "4")]);
}

#[test]
fn unacceptable_names_and_values_are_not_stored() {
    let mut env = Environment::new();
    assert!(!env.set("", "x"));
    assert!(!env.set("A=B", "x"));
    assert!(!env.set("A\0", "x"));
    assert!(!env.set("A", "x\0y"));
    assert_eq!(env.len(), 0);
    assert!(env.set("A", "x=y"));
    assert_eq!(env.get("A"), Some("x=y".to_string()));
}
