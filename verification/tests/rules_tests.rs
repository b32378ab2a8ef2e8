use keyremap::config_parser::ConfigError;
use keyremap::rules::{build_remap_setting, build_setting};

#[test]
fn builds_a_rule_from_tokens() {
    let to = vec!["right".to_string(), "leftshift.end".to_string()];
    let rule = build_remap_setting("capslock.f", &to).expect("rule should build");
    assert!(rule.from.is_ctrl);
    assert_eq!(rule.from.keyname, "f");
    assert_eq!(rule.to.len(), 2);
    assert_eq!(rule.to[0].keyname, "right");
    assert!(rule.to[1].is_shift);
    assert_eq!(rule.to[1].keyname, "end");
}

#[test]
fn empty_from_token_fails_the_rule() {
    let to = vec!["right".to_string()];
    assert_eq!(build_remap_setting("", &to), Err(ConfigError::EmptyToken));
}

#[test]
fn empty_to_token_fails_the_rule() {
    let to = vec!["right".to_string(), "".to_string()];
    assert_eq!(build_remap_setting("capslock.f", &to), Err(ConfigError::EmptyToken));
}

#[test]
fn builds_a_group_from_tokens() {
    let remap = vec![
        ("capslock.f".to_string(), vec!["right".to_string()]),
        ("capslock.b".to_string(), vec!["left".to_string()]),
    ];
    let s = build_setting(vec!["Brave".to_string()], &remap).expect("group should build");
    assert_eq!(s.applications, vec!["Brave".to_string()]);
    assert_eq!(s.remap.len(), 2);
    assert_eq!(s.remap[0].from.keyname, "f");
    assert_eq!(s.remap[1].to[0].keyname, "left");
}

#[test]
fn group_with_a_bad_token_fails() {
    let remap = vec![("".to_string(), vec!["right".to_string()])];
    assert_eq!(
        build_setting(vec!["Brave".to_string()], &remap),
        Err(ConfigError::EmptyToken)
    );
}
