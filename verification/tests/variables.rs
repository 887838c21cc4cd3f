//! Environment variables and secrets.

use forge::config::Secret;
use forge::env::EnvMap;
use forge::secrets::collect_secrets_env;

fn secret(name: &str, var: &str) -> Secret {
    Secret { name: name.to_string(), env_var: var.to_string() }
}

fn pairs(e: &EnvMap) -> Vec<(String, String)> {
    (0..e.len()).map(|i| (e.name(i).clone(), e.value(i).clone())).collect()
}

fn pair(a: &str, b: &str) -> (String, String) {
    (a.to_string(), b.to_string())
}

#[test]
fn variables_keep_their_places() {
    let mut e = EnvMap::new();
    e.insert("A".to_string(), "1".to_string());
    e.insert("B".to_string(), "2".to_string());
    e.insert("A".to_string(), "3".to_string());
    assert_eq!(pairs(&e), vec![pair("A", "3"), pair("B", "2")]);
    assert_eq!(e.get("B").map(|s| s.as_str()), Some("2"));
    assert!(e.get("C").is_none());
    let mut more = EnvMap::new();
    more.insert("B".to_string(), "x".to_string());
    more.insert("C".to_string(), "y".to_string());
    let copy = e.clone();
    e.extend(&more);
    assert_eq!(pairs(&e), vec![pair("A", "3"), pair("B", "x"), pair("C", "y")]);
    assert_eq!(pairs(&copy), vec![pair("A", "3"), pair("B", "2")]);
}

#[test]
fn secrets_have_their_values() {
    let secrets = vec![secret("API", "FORGE_API"), secret("KEY", "FORGE_KEY")];
    let values = vec![Some("a".to_string()), Some("k".to_string())];
    let env = collect_secrets_env(&secrets, &values).ok().unwrap();
    assert_eq!(pairs(&env), vec![pair("API", "a"), pair("KEY", "k")]);
    let twice = vec![secret("API", "ONE"), secret("API", "TWO")];
    let env = collect_secrets_env(&twice, &values).ok().unwrap();
    assert_eq!(pairs(&env), vec![pair("API", "k")]);
    assert_eq!(collect_secrets_env(&[], &[]).ok().unwrap().len(), 0);
}

#[test]
fn the_first_missing_secret_is_told() {
    let secrets = vec![secret("A", "VA"), secret("B", "VB"), secret("C", "VC")];
    let missing =
        collect_secrets_env(&secrets, &[Some("x".to_string()), None, None]).err().unwrap();
    assert_eq!(missing.name, "B");
    assert_eq!(
        missing.message(),
        "Secret 'B' is configured to come from env var 'VB', but it is not set\nHint: export VB=<value> before running forge"
    );
}
