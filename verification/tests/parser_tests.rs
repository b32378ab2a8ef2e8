use keyremap::config_parser::{ConfigError, ConfigKeyCombination};

fn parse_ok(token: &str) -> ConfigKeyCombination {
    ConfigKeyCombination::parse(token).expect("token should parse")
}

#[test]
fn parses_single_segment() {
    let c = parse_ok("f");
    assert!(!c.is_alt);
    assert!(!c.is_ctrl);
    assert!(!c.is_shift);
    assert_eq!(c.keyname, "f");
    assert_eq!(c.value, "f");
}

#[test]
fn parses_ctrl_combination() {
    let c = parse_ok("capslock.f");
    assert!(c.is_ctrl);
    assert!(!c.is_alt);
    assert!(!c.is_shift);
    assert_eq!(c.keyname, "f");
    assert_eq!(c.value, "capslock.f");
}

#[test]
fn parses_leftctrl_combination() {
    let c = parse_ok("leftctrl.x");
    assert!(c.is_ctrl);
    assert_eq!(c.keyname, "x");
}

#[test]
fn parses_alt_and_shift() {
    let c = parse_ok("leftalt.leftshift.f");
    assert!(c.is_alt);
    assert!(c.is_shift);
    assert!(!c.is_ctrl);
    assert_eq!(c.keyname, "f");
}

#[test]
fn rightalt_counts_as_alt() {
    let c = parse_ok("rightalt.tab");
    assert!(c.is_alt);
    assert_eq!(c.keyname, "tab");
}

#[test]
fn modifier_order_is_irrelevant() {
    let a = parse_ok("leftalt.leftshift.f");
    let b = parse_ok("leftshift.leftalt.f");
    assert_eq!(a.is_alt, b.is_alt);
    assert_eq!(a.is_ctrl, b.is_ctrl);
    assert_eq!(a.is_shift, b.is_shift);
    assert_eq!(a.keyname, b.keyname);
}

#[test]
fn parsing_is_idempotent_on_raw_token() {
    let once = parse_ok("capslock.leftshift.right");
    let twice = parse_ok(&once.value);
    assert_eq!(once, twice);
}

#[test]
fn final_segment_is_never_a_modifier() {
    let c = parse_ok("leftshift");
    assert!(!c.is_shift);
    assert!(!c.is_alt);
    assert!(!c.is_ctrl);
    assert_eq!(c.keyname, "leftshift");
}

#[test]
fn unrecognized_prefixes_are_ignored() {
    let c = parse_ok("browser.fast.z");
    assert!(!c.is_alt);
    assert!(!c.is_ctrl);
    assert!(!c.is_shift);
    assert_eq!(c.keyname, "z");
}

#[test]
fn trailing_dot_gives_empty_keyname() {
    let c = parse_ok("capslock.");
    assert!(c.is_ctrl);
    assert_eq!(c.keyname, "");
}

#[test]
fn empty_token_is_rejected() {
    assert_eq!(ConfigKeyCombination::parse(""), Err(ConfigError::EmptyToken));
}
