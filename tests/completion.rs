use uterm::completion::complete_names;

fn owned(v: &[&str]) -> Vec<String> {
    v.iter().map(|s| s.to_string()).collect()
}

#[test]
fn empty_prefix_completes_to_nothing() {
    assert!(complete_names("", &owned(&["ls", "cat"])).is_empty());
}

#[test]
fn found_names_and_builtins_are_merged_sorted_and_deduplicated() {
    let found = owned(&["gzip", "grep", "git", "grep", "ls"]);
    assert_eq!(complete_names("g", &found), owned(&["git", "grep", "gzip"]));
}

#[test]
fn builtins_alone() {
    assert_eq!(complete_names("un", &[]), owned(&["unalias", "unset"]));
    assert_eq!(complete_names("wh", &[]), owned(&["where", "which"]));
    assert_eq!(complete_names("e", &owned(&["env"])), owned(&["echo", "env", "exit", "export"]));
}

#[test]
fn order_is_by_bytes() {
    let found = owned(&["cZ", "ca", "cB", "c"]);
    assert_eq!(
        complete_names("c", &found),
        owned(&["c", "cB", "cZ", "ca", "cat", "cd", "clear", "cp"])
    );
}

#[test]
fn no_match() {
    assert!(complete_names("zzz", &owned(&["ls"])).is_empty());
}
