use cyberapi::envvars::EnvVars;
use cyberapi::envvars::{expand_env_vars, expand_unix_env, expand_windows_env};

fn env_with(pairs: &[(&str, &str)]) -> EnvVars {
    let mut e = EnvVars::new();
    for (k, v) in pairs {
        e.set_var(k.to_string(), v.to_string());
    }
    e
}

fn chars(s: &str) -> Vec<char> {
    s.chars().collect()
}

#[test]
fn lookup_finds_set_variable() {
    let e = env_with(&[("HOME", "/users/alice")]);
    assert_eq!(e.lookup(&chars("HOME")), Some("/users/alice".to_string()));
    assert_eq!(e.lookup(&chars("MISSING")), None);
}

#[test]
fn later_set_shadows_earlier() {
    let mut e = env_with(&[("X", "one")]);
    e.set_var("X".to_string(), "two".to_string());
    assert_eq!(e.lookup(&chars("X")), Some("two".to_string()));
}

#[test]
fn set_variable_expands_in_all_three_forms() {
    let e = env_with(&[("V", "val")]);
    assert_eq!(expand_env_vars(&e, "%V%"), "val");
    assert_eq!(expand_env_vars(&e, "$V"), "val");
    assert_eq!(expand_env_vars(&e, "${V}"), "val");
}

#[test]
fn unset_variable_stays_verbatim_in_all_three_forms() {
    let e = EnvVars::new();
    assert_eq!(expand_env_vars(&e, "%U%"), "%U%");
    assert_eq!(expand_env_vars(&e, "$U"), "$U");
    assert_eq!(expand_env_vars(&e, "${U}"), "${U}");
}

#[test]
fn expansion_idempotent_for_unset_reference() {
    let e = EnvVars::new();
    let once = expand_env_vars(&e, "%U%/data");
    let twice = expand_env_vars(&e, once.as_str());
    assert_eq!(once, "%U%/data");
    assert_eq!(twice, once);
}

#[test]
fn literal_text_passes_through() {
    let e = env_with(&[("V", "val")]);
    assert_eq!(expand_env_vars(&e, "/plain/path"), "/plain/path");
    assert_eq!(expand_env_vars(&e, ""), "");
}

#[test]
fn reference_embedded_in_literal_text() {
    let e = env_with(&[("HOME", "/users/alice")]);
    assert_eq!(expand_env_vars(&e, "%HOME%/data"), "/users/alice/data");
    assert_eq!(expand_env_vars(&e, "$HOME/data"), "/users/alice/data");
    assert_eq!(expand_env_vars(&e, "a${HOME}b"), "a/users/aliceb");
}

#[test]
fn double_percent_collapses_to_one() {
    let e = EnvVars::new();
    assert_eq!(expand_windows_env(&e, "%%"), "%");
    assert_eq!(expand_windows_env(&e, "a%%b"), "a%b");
}

#[test]
fn unterminated_percent_stays_literal() {
    let e = env_with(&[("V", "val")]);
    assert_eq!(expand_windows_env(&e, "%V"), "%V");
    assert_eq!(expand_windows_env(&e, "50%"), "50%");
}

#[test]
fn bare_dollar_stays_literal() {
    let e = EnvVars::new();
    assert_eq!(expand_unix_env(&e, "a$"), "a$");
    assert_eq!(expand_unix_env(&e, "$ b"), "$ b");
}

#[test]
fn empty_braced_name_stays_verbatim() {
    let e = EnvVars::new();
    assert_eq!(expand_unix_env(&e, "a${}b"), "a${}b");
}

#[test]
fn unterminated_brace_keeps_scanning() {
    let e = env_with(&[("B", "bee")]);
    assert_eq!(expand_unix_env(&e, "${A $B"), "${A bee");
}

#[test]
fn dollar_name_stops_at_non_word_character() {
    let e = env_with(&[("VAR", "v")]);
    assert_eq!(expand_unix_env(&e, "$VAR/tail"), "v/tail");
    assert_eq!(expand_unix_env(&e, "$VAR-x"), "v-x");
}

#[test]
fn windows_pass_output_feeds_dollar_pass() {
    let e = env_with(&[("A", "$B"), ("B", "bee")]);
    assert_eq!(expand_env_vars(&e, "%A%"), "bee");
}

#[test]
fn digits_and_underscore_are_name_characters() {
    let e = env_with(&[("A_1", "ok")]);
    assert_eq!(expand_env_vars(&e, "$A_1"), "ok");
}

#[test]
fn consecutive_references_expand_in_order() {
    let e = env_with(&[("A", "a"), ("B", "b")]);
    assert_eq!(expand_windows_env(&e, "%A%%B%"), "ab");
    assert_eq!(expand_unix_env(&e, "${A}$B"), "ab");
}

#[test]
fn substituted_value_is_not_rescanned_by_the_same_pass() {
    let e = env_with(&[("A", "$B"), ("B", "bee")]);
    assert_eq!(expand_unix_env(&e, "$A"), "$B");
}

#[test]
fn unset_reference_in_literal_context_is_idempotent() {
    let e = EnvVars::new();
    for input in ["pre-%U%/data", "pre-$U/data", "pre-${U}/data"] {
        let once = expand_env_vars(&e, input);
        assert_eq!(once, input);
        assert_eq!(expand_env_vars(&e, once.as_str()), once);
    }
}
