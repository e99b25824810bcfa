use dscode::env_block::{build_env_block, env_keys_match, set_env_var, utf16_of, EnvVar};

fn var(k: &str, v: &str) -> EnvVar {
    EnvVar { key: utf16_of(k), value: utf16_of(v) }
}

#[test]
fn env_key_match_is_case_insensitive() {
    let mut vars = vec![var("Path", "OLD"), var("DSH_HOME", "x")];
    assert!(env_keys_match(&utf16_of("Path"), &utf16_of("PATH")));
    set_env_var(&mut vars, utf16_of("PATH"), utf16_of("NEW"));
    let path_entries: Vec<&EnvVar> =
        vars.iter().filter(|e| env_keys_match(&e.key, &utf16_of("path"))).collect();
    assert_eq!(path_entries.len(), 1);
    assert_eq!(path_entries[0].value, utf16_of("NEW"));
    assert_eq!(path_entries[0].key, utf16_of("Path"));
    assert_eq!(vars.len(), 2);
}

#[test]
fn keys_differing_beyond_ascii_case_do_not_match() {
    assert!(!env_keys_match(&utf16_of("PATH"), &utf16_of("PATHS")));
    assert!(!env_keys_match(&utf16_of("\u{C4}"), &utf16_of("\u{E4}")));
    assert!(env_keys_match(&utf16_of("dsh_home"), &utf16_of("DSH_HOME")));
}

#[test]
fn unknown_key_is_appended() {
    let mut vars = vec![var("A", "1")];
    set_env_var(&mut vars, utf16_of("B"), utf16_of("2"));
    assert_eq!(vars.len(), 2);
    assert_eq!(vars[1].key, utf16_of("B"));
    assert_eq!(vars[1].value, utf16_of("2"));
}

#[test]
fn only_first_matching_key_is_replaced() {
    let mut vars = vec![var("x", "1"), var("X", "2")];
    set_env_var(&mut vars, utf16_of("X"), utf16_of("3"));
    assert_eq!(vars[0].value, utf16_of("3"));
    assert_eq!(vars[1].value, utf16_of("2"));
}

#[test]
fn env_block_layout() {
    let vars = vec![var("A", "1"), var("Path", "old")];
    let extra = vec![
        (String::from("PATH"), String::from("new")),
        (String::from("B"), String::from("2")),
    ];
    let block = build_env_block(vars, &extra);
    let expected: Vec<u16> = "A=1\0Path=new\0B=2\0\0".encode_utf16().collect();
    assert_eq!(block, expected);
}

#[test]
fn empty_env_block_is_one_nul() {
    assert_eq!(build_env_block(Vec::new(), &[]), vec![0]);
}

#[test]
fn later_extra_entry_wins() {
    let extra = vec![
        (String::from("K"), String::from("first")),
        (String::from("k"), String::from("second")),
    ];
    let block = build_env_block(Vec::new(), &extra);
    let expected: Vec<u16> = "K=second\0\0".encode_utf16().collect();
    assert_eq!(block, expected);
}

#[test]
fn utf16_of_non_bmp() {
    assert_eq!(utf16_of("a\u{1F600}"), vec![0x61, 0xD83D, 0xDE00]);
}

#[test]
fn setting_one_variable_keeps_the_others() {
    let mut vars = vec![var("Path", "OLD"), var("DSH_HOME", "x")];
    set_env_var(&mut vars, utf16_of("PATH"), utf16_of("NEW"));
    assert_eq!(vars[1].key, utf16_of("DSH_HOME"));
    assert_eq!(vars[1].value, utf16_of("x"));
}

#[test]
fn merged_block_has_no_duplicate_names() {
    let vars = vec![var("Path", "a"), var("TEMP", "t")];
    let extra = vec![
        (String::from("path"), String::from("b")),
        (String::from("PATH"), String::from("c")),
        (String::from("temp"), String::from("u")),
    ];
    let block = build_env_block(vars, &extra);
    let expected: Vec<u16> = "Path=c\0TEMP=u\0\0".encode_utf16().collect();
    assert_eq!(block, expected);
}
