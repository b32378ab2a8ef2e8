use keyremap::config_parser::ConfigKeyCombination;
use keyremap::focus::remap_enabled_for;
use keyremap::rules::{RemapSetting, Setting};
use keyremap::translator::{translate_batch, translate_event, InputEvent, ModifierPressState};

fn combo(token: &str) -> ConfigKeyCombination {
    ConfigKeyCombination::parse(token).expect("token should parse")
}

fn rule(from: &str, to: &[&str]) -> RemapSetting {
    RemapSetting {
        from: combo(from),
        to: to.iter().map(|t| combo(t)).collect(),
    }
}

fn group(apps: &[&str], rules: Vec<RemapSetting>) -> Setting {
    Setting {
        applications: apps.iter().map(|a| a.to_string()).collect(),
        remap: rules,
    }
}

fn key(name: &str, value: i32) -> InputEvent {
    InputEvent::Key { name: name.to_string(), value }
}

fn brave_config() -> Vec<Setting> {
    vec![group(&["Brave"], vec![rule("capslock.f", &["right"])])]
}

#[test]
fn matched_rule_in_focused_app() {
    // Focus "Brave": the group is scoped to it, so remapping is active.
    let cfg = brave_config();
    let enabled = remap_enabled_for(&cfg, &"Brave".to_string());
    assert!(enabled);

    // Caps down is swallowed; F down matches `capslock.f` and `right` needs
    // no Ctrl, so the held Caps is suppressed before the substituted key.
    let mut st = ModifierPressState::new();
    let input = vec![key("capslock", 1), key("f", 1)];
    let out = translate_batch(&cfg, enabled, &mut st, &input);
    assert_eq!(out, vec![key("capslock", 0), key("right", 1)]);
    assert!(st.caps_down);
}

#[test]
fn unfocused_app_passes_through() {
    // Focus "Firefox": not in the group's applications, flag stays false and
    // the very same input comes out unchanged.
    let cfg = brave_config();
    let enabled = remap_enabled_for(&cfg, &"Firefox".to_string());
    assert!(!enabled);

    let mut st = ModifierPressState::new();
    let input = vec![key("capslock", 1), key("f", 1)];
    let out = translate_batch(&cfg, enabled, &mut st, &input);
    assert_eq!(out, input);
    assert!(!st.caps_down);
}

#[test]
fn sync_markers_are_always_forwarded() {
    let cfg = brave_config();
    let mut st = ModifierPressState::new();
    let out_disabled = translate_event(&cfg, false, &mut st, &InputEvent::Sync);
    assert_eq!(out_disabled, vec![InputEvent::Sync]);
    let out_enabled = translate_event(&cfg, true, &mut st, &InputEvent::Sync);
    assert_eq!(out_enabled, vec![InputEvent::Sync]);
}

#[test]
fn caps_and_alt_are_swallowed_while_active() {
    let cfg = brave_config();
    let mut st = ModifierPressState::new();
    assert_eq!(translate_event(&cfg, true, &mut st, &key("capslock", 1)), vec![]);
    assert!(st.caps_down);
    assert_eq!(translate_event(&cfg, true, &mut st, &key("leftalt", 1)), vec![]);
    assert!(st.alt_down);
    assert_eq!(translate_event(&cfg, true, &mut st, &key("leftalt", 0)), vec![]);
    assert!(!st.alt_down);
    assert_eq!(translate_event(&cfg, true, &mut st, &key("capslock", 0)), vec![]);
    assert!(!st.caps_down);
}

#[test]
fn swallowed_caps_is_reconstructed_for_unmatched_key() {
    // Caps held, `g` matches no rule: the key's synthetic stream must be
    // preceded by a reconstructed Caps down, though the physical Caps press
    // itself was never forwarded.
    let cfg = brave_config();
    let mut st = ModifierPressState::new();
    assert_eq!(translate_event(&cfg, true, &mut st, &key("capslock", 1)), vec![]);
    let out = translate_event(&cfg, true, &mut st, &key("g", 1));
    assert_eq!(out, vec![key("capslock", 1), key("g", 1)]);
}

#[test]
fn held_alt_is_reconstructed_too() {
    let cfg = brave_config();
    let mut st = ModifierPressState::new();
    assert_eq!(translate_event(&cfg, true, &mut st, &key("leftalt", 1)), vec![]);
    let out = translate_event(&cfg, true, &mut st, &key("g", 1));
    assert_eq!(out, vec![key("leftalt", 1), key("g", 1)]);
}

#[test]
fn repeat_leaves_modifier_state_alone() {
    let cfg = brave_config();
    let mut st = ModifierPressState::new();
    translate_event(&cfg, true, &mut st, &key("capslock", 1));
    assert!(st.caps_down);
    assert_eq!(translate_event(&cfg, true, &mut st, &key("capslock", 2)), vec![]);
    assert!(st.caps_down);
}

#[test]
fn first_declared_group_wins() {
    // Two groups, both with a rule for `capslock.f`: the earlier-declared
    // group's rule is the one selected.
    let cfg = vec![
        group(&["Brave"], vec![rule("capslock.f", &["right"])]),
        group(&["Brave"], vec![rule("capslock.f", &["left"])]),
    ];
    let mut st = ModifierPressState::new();
    translate_event(&cfg, true, &mut st, &key("capslock", 1));
    let out = translate_event(&cfg, true, &mut st, &key("f", 1));
    assert_eq!(out, vec![key("capslock", 0), key("right", 1)]);
}

#[test]
fn first_declared_rule_within_group_wins() {
    let cfg = vec![group(
        &["Brave"],
        vec![rule("capslock.f", &["right"]), rule("capslock.f", &["left"])],
    )];
    let mut st = ModifierPressState::new();
    translate_event(&cfg, true, &mut st, &key("capslock", 1));
    let out = translate_event(&cfg, true, &mut st, &key("f", 1));
    assert_eq!(out, vec![key("capslock", 0), key("right", 1)]);
}

#[test]
fn ctrl_target_is_bracketed_by_caps() {
    // The substituted key requires Ctrl: the stream carries Caps down
    // strictly before it and Caps up strictly after, leaving nothing held.
    let cfg = vec![group(&["Brave"], vec![rule("capslock.f", &["leftctrl.right"])])];
    let mut st = ModifierPressState::new();
    translate_event(&cfg, true, &mut st, &key("capslock", 1));
    let out = translate_event(&cfg, true, &mut st, &key("f", 1));
    assert_eq!(out, vec![key("capslock", 1), key("right", 1), key("capslock", 0)]);
}

#[test]
fn shift_target_is_bracketed_by_shift() {
    let cfg = vec![group(&["Brave"], vec![rule("capslock.f", &["leftshift.right"])])];
    let mut st = ModifierPressState::new();
    translate_event(&cfg, true, &mut st, &key("capslock", 1));
    let out = translate_event(&cfg, true, &mut st, &key("f", 1));
    assert_eq!(
        out,
        vec![key("capslock", 0), key("leftshift", 1), key("right", 1), key("leftshift", 0)]
    );
}

#[test]
fn held_alt_is_suppressed_around_substitution() {
    let cfg = brave_config();
    let mut st = ModifierPressState::new();
    translate_event(&cfg, true, &mut st, &key("capslock", 1));
    translate_event(&cfg, true, &mut st, &key("leftalt", 1));
    let out = translate_event(&cfg, true, &mut st, &key("f", 1));
    assert_eq!(out, vec![key("capslock", 0), key("leftalt", 0), key("right", 1)]);
}

#[test]
fn empty_to_sequence_swallows_the_key() {
    let cfg = vec![group(&["Brave"], vec![rule("capslock.x", &[])])];
    let mut st = ModifierPressState::new();
    translate_event(&cfg, true, &mut st, &key("capslock", 1));
    let out = translate_event(&cfg, true, &mut st, &key("x", 1));
    assert_eq!(out, vec![]);
}

#[test]
fn multi_key_to_sequence_emits_in_order() {
    let cfg = vec![group(&["Brave"], vec![rule("capslock.d", &["right", "right"])])];
    let mut st = ModifierPressState::new();
    translate_event(&cfg, true, &mut st, &key("capslock", 1));
    let out = translate_event(&cfg, true, &mut st, &key("d", 1));
    assert_eq!(
        out,
        vec![key("capslock", 0), key("right", 1), key("capslock", 0), key("right", 1)]
    );
}

#[test]
fn event_value_is_preserved_on_substitution() {
    let cfg = brave_config();
    let mut st = ModifierPressState::new();
    translate_event(&cfg, true, &mut st, &key("capslock", 1));
    translate_event(&cfg, true, &mut st, &key("f", 1));
    let out = translate_event(&cfg, true, &mut st, &key("f", 0));
    assert_eq!(out, vec![key("capslock", 0), key("right", 0)]);
}

#[test]
fn rule_does_not_match_without_required_modifier() {
    // `capslock.f` demands a held Caps: a bare F passes through untouched.
    let cfg = brave_config();
    let mut st = ModifierPressState::new();
    let out = translate_event(&cfg, true, &mut st, &key("f", 1));
    assert_eq!(out, vec![key("f", 1)]);
}

#[test]
fn rules_of_every_group_compete_once_active() {
    // The per-key scan walks every group; the application lists gate only
    // the shared flag, not the match.
    let cfg = vec![
        group(&["Brave"], vec![rule("capslock.f", &["right"])]),
        group(&["Emacs"], vec![rule("capslock.b", &["left"])]),
    ];
    let mut st = ModifierPressState::new();
    translate_event(&cfg, true, &mut st, &key("capslock", 1));
    let out = translate_event(&cfg, true, &mut st, &key("b", 1));
    assert_eq!(out, vec![key("capslock", 0), key("left", 1)]);
}
