//! The event translator: a modifier-tracking state machine that consumes raw
//! key events from the physical device and decides which synthetic events to
//! emit downstream.
//!
//! While remapping is active the physical Caps and Alt keys are never
//! forwarded verbatim: they are swallowed into the modifier state and only
//! reconstructed synthetically, which lets them act as pure modifiers for
//! the rule grammar without leaking their literal identity downstream.

use vstd::prelude::*;
use crate::config_parser::{ConfigKeyCombination, KeyComboView, str_eq};
use crate::rules::{RemapRuleView, RemapSetting, Setting, SettingView, config_view};

verus! {

/// Physical press state of the modifier-producing keys, owned by the event
/// translator.  A flag is set on key-down (value 1), cleared on key-up
/// (value 0) and left alone on repeat (value 2); a missed key-up therefore
/// leaves the flag stale until the next real press or release of that key.
#[derive(Debug, PartialEq, Eq, Structural, Clone, Copy)]
pub struct ModifierPressState {
    pub caps_down: bool,
    pub alt_down: bool,
    pub shift_down: bool,
}

impl ModifierPressState {
    /// A fresh state with every modifier released.
    pub fn new() -> (st: ModifierPressState)
        ensures
            !st.caps_down,
            !st.alt_down,
            !st.shift_down,
    {
        ModifierPressState { caps_down: false, alt_down: false, shift_down: false }
    }
}

/// The mathematical model of an input event.
pub enum EventView {
    Key { name: Seq<char>, value: int },
    Sync,
}

/// A raw or synthetic input event: a key event carries a canonical key name
/// and a value (0 = up, 1 = down, 2 = repeat); a synchronization marker
/// closes a logical event frame.
#[derive(Debug, PartialEq, Clone)]
pub enum InputEvent {
    Key { name: String, value: i32 },
    Sync,
}

impl View for InputEvent {
    type V = EventView;

    open spec fn view(&self) -> EventView {
        match self {
            InputEvent::Key { name, value } => EventView::Key {
                name: name@,
                value: *value as int,
            },
            InputEvent::Sync => EventView::Sync,
        }
    }
}

/// The views of a sequence of events.
pub open spec fn event_views(s: Seq<InputEvent>) -> Seq<EventView> {
    s.map_values(|e: InputEvent| e@)
}

/// How one key event moves the modifier press state: down sets the flag of
/// a modifier-producing key, up clears it, repeat leaves it alone, and any
/// other key leaves the state untouched.
pub open spec fn spec_update_mods(
    st: ModifierPressState,
    name: Seq<char>,
    value: int,
) -> ModifierPressState {
    if name == "capslock"@ {
        ModifierPressState {
            caps_down: if value == 1 {
                true
            } else if value == 0 {
                false
            } else {
                st.caps_down
            },
            alt_down: st.alt_down,
            shift_down: st.shift_down,
        }
    } else if name == "leftalt"@ || name == "rightalt"@ {
        ModifierPressState {
            caps_down: st.caps_down,
            alt_down: if value == 1 {
                true
            } else if value == 0 {
                false
            } else {
                st.alt_down
            },
            shift_down: st.shift_down,
        }
    } else if name == "leftshift"@ {
        ModifierPressState {
            caps_down: st.caps_down,
            alt_down: st.alt_down,
            shift_down: if value == 1 {
                true
            } else if value == 0 {
                false
            } else {
                st.shift_down
            },
        }
    } else {
        st
    }
}

/// Whether the modifier requirement of a rule's `from` side is satisfied:
/// each required modifier must be held; a rule requiring none is satisfied
/// unconditionally.  Ctrl is carried by the physical Caps key.
pub open spec fn mods_satisfied(from: KeyComboView, st: ModifierPressState) -> bool {
    &&& (from.is_ctrl ==> st.caps_down)
    &&& (from.is_alt ==> st.alt_down)
    &&& (from.is_shift ==> st.shift_down)
}

/// Whether a rule is selected for a key event: its `from` base key equals
/// the event's key name and its modifier requirement is met.
pub open spec fn rule_matches(rule: RemapRuleView, name: Seq<char>, st: ModifierPressState) -> bool {
    rule.from.keyname == name && mods_satisfied(rule.from, st)
}

/// The first matching rule of one group, in declaration order.
pub open spec fn find_in_rules(
    rules: Seq<RemapRuleView>,
    name: Seq<char>,
    st: ModifierPressState,
) -> Option<RemapRuleView>
    decreases rules.len(),
{
    if rules.len() == 0 {
        None
    } else if rule_matches(rules.first(), name, st) {
        Some(rules.first())
    } else {
        find_in_rules(rules.drop_first(), name, st)
    }
}

/// The selected rule for a key event: the first matching rule of the first
/// group holding one, groups and rules both in declaration order.
pub open spec fn find_rule(
    cfg: Seq<SettingView>,
    name: Seq<char>,
    st: ModifierPressState,
) -> Option<RemapRuleView>
    decreases cfg.len(),
{
    if cfg.len() == 0 {
        None
    } else if find_in_rules(cfg.first().remap, name, st) is Some {
        find_in_rules(cfg.first().remap, name, st)
    } else {
        find_rule(cfg.drop_first(), name, st)
    }
}

/// The physical keys that are swallowed into the modifier state while
/// remapping is active, never forwarded verbatim.
pub open spec fn is_swallowed_modifier(name: Seq<char>) -> bool {
    name == "capslock"@ || name == "leftalt"@ || name == "rightalt"@
}

/// One bracketed emission for one `to` key: suppress a held Caps or Alt the
/// substituted key does not want, press the modifiers it does want, emit the
/// substituted key with the original event's value, then release the pressed
/// modifiers so no synthetic modifier is left down.
pub open spec fn spec_bracket(
    st: ModifierPressState,
    to: KeyComboView,
    value: int,
) -> Seq<EventView> {
    (if st.caps_down && !to.is_ctrl {
        seq![EventView::Key { name: "capslock"@, value: 0 }]
    } else {
        Seq::<EventView>::empty()
    }) + (if st.alt_down && !to.is_alt {
        seq![EventView::Key { name: "leftalt"@, value: 0 }]
    } else {
        Seq::<EventView>::empty()
    }) + (if to.is_ctrl {
        seq![EventView::Key { name: "capslock"@, value: 1 }]
    } else {
        Seq::<EventView>::empty()
    }) + (if to.is_shift {
        seq![EventView::Key { name: "leftshift"@, value: 1 }]
    } else {
        Seq::<EventView>::empty()
    }) + seq![EventView::Key { name: to.keyname, value: value }] + (if to.is_shift {
        seq![EventView::Key { name: "leftshift"@, value: 0 }]
    } else {
        Seq::<EventView>::empty()
    }) + (if to.is_ctrl {
        seq![EventView::Key { name: "capslock"@, value: 0 }]
    } else {
        Seq::<EventView>::empty()
    })
}

/// The whole emission of a selected rule: one bracket per `to` key, in
/// order.
pub open spec fn spec_emit_rule(
    st: ModifierPressState,
    tos: Seq<KeyComboView>,
    value: int,
) -> Seq<EventView>
    decreases tos.len(),
{
    if tos.len() == 0 {
        Seq::<EventView>::empty()
    } else {
        spec_emit_rule(st, tos.drop_last(), value) + spec_bracket(st, tos.last(), value)
    }
}

/// One key event under active remapping: update the modifier state first
/// (so a modifier's own event is matched against its own new state), then
/// either emit the selected rule's brackets, swallow an unmatched Caps or
/// Alt, or reconstruct the swallowed modifiers and forward the event.
pub open spec fn spec_translate_key(
    cfg: Seq<SettingView>,
    st: ModifierPressState,
    name: Seq<char>,
    value: int,
) -> (ModifierPressState, Seq<EventView>) {
    let st1 = spec_update_mods(st, name, value);
    match find_rule(cfg, name, st1) {
        Some(rule) => (st1, spec_emit_rule(st1, rule.to, value)),
        None => if is_swallowed_modifier(name) {
            (st1, Seq::<EventView>::empty())
        } else {
            (
                st1,
                (if st1.caps_down {
                    seq![EventView::Key { name: "capslock"@, value: 1 }]
                } else {
                    Seq::<EventView>::empty()
                }) + (if st1.alt_down {
                    seq![EventView::Key { name: "leftalt"@, value: 1 }]
                } else {
                    Seq::<EventView>::empty()
                }) + seq![EventView::Key { name: name, value: value }],
            )
        },
    }
}

/// One raw event: a synchronization marker is always forwarded unmodified;
/// a key event is forwarded verbatim while remapping is inactive and runs
/// the state machine otherwise.
pub open spec fn spec_translate(
    cfg: Seq<SettingView>,
    enabled: bool,
    st: ModifierPressState,
    ev: EventView,
) -> (ModifierPressState, Seq<EventView>) {
    match ev {
        EventView::Sync => (st, seq![EventView::Sync]),
        EventView::Key { name, value } => if !enabled {
            (st, seq![EventView::Key { name: name, value: value }])
        } else {
            spec_translate_key(cfg, st, name, value)
        },
    }
}

/// A batch of raw events, translated in order under one snapshot of the
/// remap-active flag, the modifier state threading through.
pub open spec fn spec_translate_batch(
    cfg: Seq<SettingView>,
    enabled: bool,
    st: ModifierPressState,
    evs: Seq<EventView>,
) -> (ModifierPressState, Seq<EventView>)
    decreases evs.len(),
{
    if evs.len() == 0 {
        (st, Seq::<EventView>::empty())
    } else {
        let prev = spec_translate_batch(cfg, enabled, st, evs.drop_last());
        let step = spec_translate(cfg, enabled, prev.0, evs.last());
        (step.0, prev.1 + step.1)
    }
}

/// Apply one key event's effect on the modifier state, exactly as
/// `spec_update_mods` says.
fn update_mods(st: &mut ModifierPressState, name: &String, value: i32)
    ensures
        *final(st) == spec_update_mods(*old(st), name@, value as int),
{
    if str_eq(name.as_str(), "capslock") {
        if value == 1 {
            st.caps_down = true;
        } else if value == 0 {
            st.caps_down = false;
        }
    } else if str_eq(name.as_str(), "leftalt") || str_eq(name.as_str(), "rightalt") {
        if value == 1 {
            st.alt_down = true;
        } else if value == 0 {
            st.alt_down = false;
        }
    } else if str_eq(name.as_str(), "leftshift") {
        if value == 1 {
            st.shift_down = true;
        } else if value == 0 {
            st.shift_down = false;
        }
    }
}

/// A scan that has rejected a prefix of the rules may go on from where it
/// stands: the first match of the rest is the first match of the whole.
proof fn lemma_find_in_rules_skip(
    rules: Seq<RemapRuleView>,
    name: Seq<char>,
    st: ModifierPressState,
    i: int,
)
    requires
        0 <= i <= rules.len(),
        forall|j: int| 0 <= j < i ==> !rule_matches(#[trigger] rules[j], name, st),
    ensures
        find_in_rules(rules, name, st) == find_in_rules(rules.skip(i), name, st),
    decreases i,
{
    if i > 0 {
        assert(!rule_matches(rules[0], name, st));
        lemma_find_in_rules_skip(rules.drop_first(), name, st, i - 1);
        assert(rules.drop_first().skip(i - 1) =~= rules.skip(i));
    } else {
        assert(rules.skip(0) =~= rules);
    }
}

/// The same for whole groups: groups already scanned without a match do not
/// change which rule the rest selects.
proof fn lemma_find_rule_skip(
    cfg: Seq<SettingView>,
    name: Seq<char>,
    st: ModifierPressState,
    g: int,
)
    requires
        0 <= g <= cfg.len(),
        forall|j: int| 0 <= j < g ==> find_in_rules(#[trigger] cfg[j].remap, name, st) is None,
    ensures
        find_rule(cfg, name, st) == find_rule(cfg.skip(g), name, st),
    decreases g,
{
    if g > 0 {
        assert(find_in_rules(cfg[0].remap, name, st) is None);
        lemma_find_rule_skip(cfg.drop_first(), name, st, g - 1);
        assert(cfg.drop_first().skip(g - 1) =~= cfg.skip(g));
    } else {
        assert(cfg.skip(0) =~= cfg);
    }
}

/// Whether `rule` is selected for the key `name` under the modifier state
/// `st`, exactly as `rule_matches` says.
fn rule_matches_exec(rule: &RemapSetting, name: &String, st: &ModifierPressState) -> (r: bool)
    ensures
        r == rule_matches(rule@, name@, *st),
{
    str_eq(rule.from.keyname.as_str(), name.as_str()) && (!rule.from.is_ctrl || st.caps_down) && (
    !rule.from.is_alt || st.alt_down) && (!rule.from.is_shift || st.shift_down)
}

/// Scan the groups in declaration order, each group's rules in declaration
/// order, and return the position of the first rule selected for the key
/// `name` under the modifier state `st`, if any.
fn find_rule_exec(cfg: &Vec<Setting>, name: &String, st: &ModifierPressState) -> (r: Option<
    (usize, usize),
>)
    ensures
        match r {
            Some(pos) => {
                &&& (pos.0 as int) < cfg@.len()
                &&& (pos.1 as int) < cfg@[pos.0 as int]@.remap.len()
                &&& find_rule(config_view(cfg@), name@, *st) == Some(
                    cfg@[pos.0 as int]@.remap[pos.1 as int],
                )
            },
            None => find_rule(config_view(cfg@), name@, *st) is None,
        },
{
    let ghost cfgv = config_view(cfg@);
    let mut g: usize = 0;
    while g < cfg.len()
        invariant
            g <= cfg@.len(),
            cfgv == config_view(cfg@),
            cfgv.len() == cfg@.len(),
            forall|j: int| 0 <= j < g ==> find_in_rules(#[trigger] cfgv[j].remap, name@, *st) is None,
        decreases cfg@.len() - g,
    {
        let rules = &cfg[g].remap;
        let mut i: usize = 0;
        while i < rules.len()
            invariant
                i <= rules@.len(),
                g < cfg@.len(),
                cfgv == config_view(cfg@),
                cfgv.len() == cfg@.len(),
                rules@ == cfg@[g as int].remap@,
                cfgv[g as int].remap.len() == rules@.len(),
                forall|j: int| 0 <= j < g ==> find_in_rules(#[trigger] cfgv[j].remap, name@, *st) is None,
                forall|j: int| 0 <= j < i ==> !rule_matches(#[trigger] cfgv[g as int].remap[j], name@, *st),
            decreases rules@.len() - i,
        {
            if rule_matches_exec(&rules[i], name, st) {
                proof {
                    assert(cfgv[g as int].remap[i as int] == rules@[i as int]@);
                    lemma_find_in_rules_skip(cfgv[g as int].remap, name@, *st, i as int);
                    assert(cfgv[g as int].remap.skip(i as int).first() == cfgv[g as int].remap[i as int]);
                    assert(find_in_rules(cfgv[g as int].remap, name@, *st) == Some(
                        cfgv[g as int].remap[i as int],
                    ));
                    lemma_find_rule_skip(cfgv, name@, *st, g as int);
                    assert(cfgv.skip(g as int).first() == cfgv[g as int]);
                    assert(find_rule(cfgv, name@, *st) == Some(cfgv[g as int].remap[i as int]));
                }
                return Some((g, i));
            }
            proof {
                assert(cfgv[g as int].remap[i as int] == rules@[i as int]@);
            }
            i += 1;
        }
        proof {
            lemma_find_in_rules_skip(cfgv[g as int].remap, name@, *st, rules@.len() as int);
            assert(cfgv[g as int].remap.skip(rules@.len() as int) =~= Seq::<RemapRuleView>::empty());
        }
        g += 1;
    }
    proof {
        lemma_find_rule_skip(cfgv, name@, *st, cfg@.len() as int);
        assert(cfgv.skip(cfg@.len() as int) =~= Seq::<SettingView>::empty());
    }
    None
}

/// A synthetic key event for a canonical key name.
fn key_event(name: &str, value: i32) -> (e: InputEvent)
    ensures
        e@ == (EventView::Key { name: name@, value: value as int }),
{
    InputEvent::Key { name: name.to_owned(), value }
}

/// Whether this key is swallowed into the modifier state while remapping is
/// active, exactly as `is_swallowed_modifier` says.
fn is_swallowed_exec(name: &String) -> (r: bool)
    ensures
        r == is_swallowed_modifier(name@),
{
    str_eq(name.as_str(), "capslock") || str_eq(name.as_str(), "leftalt") || str_eq(
        name.as_str(),
        "rightalt",
    )
}

/// Append one bracketed emission to `out`, exactly as `spec_bracket` says.
fn emit_bracket(st: &ModifierPressState, to: &ConfigKeyCombination, value: i32, out: &mut Vec<
    InputEvent,
>)
    ensures
        event_views(final(out)@) == event_views(old(out)@) + spec_bracket(*st, to@, value as int),
{
    let ghost base = old(out)@;
    if st.caps_down && !to.is_ctrl {
        out.push(key_event("capslock", 0));
    }
    if st.alt_down && !to.is_alt {
        out.push(key_event("leftalt", 0));
    }
    if to.is_ctrl {
        out.push(key_event("capslock", 1));
    }
    if to.is_shift {
        out.push(key_event("leftshift", 1));
    }
    out.push(InputEvent::Key { name: to.keyname.clone(), value });
    if to.is_shift {
        out.push(key_event("leftshift", 0));
    }
    if to.is_ctrl {
        out.push(key_event("capslock", 0));
    }
    proof {
        assert(event_views(out@) =~= event_views(base) + spec_bracket(*st, to@, value as int));
    }
}

/// Append a selected rule's whole emission to `out`: one bracket per `to`
/// key, in order.
fn emit_rule(st: &ModifierPressState, tos: &Vec<ConfigKeyCombination>, value: i32, out: &mut Vec<
    InputEvent,
>)
    ensures
        event_views(final(out)@) == event_views(old(out)@) + spec_emit_rule(
            *st,
            tos@.map_values(|c: ConfigKeyCombination| c@),
            value as int,
        ),
{
    let ghost base = old(out)@;
    let ghost tosv = tos@.map_values(|c: ConfigKeyCombination| c@);
    let mut i: usize = 0;
    while i < tos.len()
        invariant
            i <= tos@.len(),
            tosv == tos@.map_values(|c: ConfigKeyCombination| c@),
            tosv.len() == tos@.len(),
            event_views(out@) == event_views(base) + spec_emit_rule(
                *st,
                tosv.take(i as int),
                value as int,
            ),
        decreases tos@.len() - i,
    {
        emit_bracket(st, &tos[i], value, out);
        proof {
            assert(tosv.take(i + 1).drop_last() =~= tosv.take(i as int));
            assert(tosv.take(i + 1).last() == tosv[i as int]);
            assert(tosv[i as int] == tos@[i as int]@);
        }
        i += 1;
    }
    proof {
        assert(tosv.take(tos@.len() as int) =~= tosv);
    }
}

/// Translate one raw event: forward a synchronization marker unmodified;
/// forward a key event verbatim while remapping is inactive; otherwise run
/// the state machine of `spec_translate_key`, updating the modifier state
/// and returning the synthetic events to emit in order.
pub fn translate_event(
    cfg: &Vec<Setting>,
    remap_enabled: bool,
    st: &mut ModifierPressState,
    ev: &InputEvent,
) -> (out: Vec<InputEvent>)
    ensures
        ({
            let r = spec_translate(config_view(cfg@), remap_enabled, *old(st), ev@);
            &&& *final(st) == r.0
            &&& event_views(out@) == r.1
        }),
{
    let mut out: Vec<InputEvent> = Vec::new();
    match ev {
        InputEvent::Sync => {
            out.push(InputEvent::Sync);
            proof {
                assert(event_views(out@) =~= seq![EventView::Sync]);
            }
        },
        InputEvent::Key { name, value } => {
            if !remap_enabled {
                out.push(InputEvent::Key { name: name.clone(), value: *value });
                proof {
                    assert(event_views(out@) =~= seq![ev@]);
                }
            } else {
                update_mods(st, name, *value);
                match find_rule_exec(cfg, name, st) {
                    Some(pos) => {
                        let (g, i) = pos;
                        let rule = &cfg[g].remap[i];
                        proof {
                            assert(cfg@[g as int]@.remap[i as int] == rule@);
                        }
                        emit_rule(st, &rule.to, *value, &mut out);
                    },
                    None => {
                        if is_swallowed_exec(name) {
                            proof {
                                assert(event_views(out@) =~= Seq::<EventView>::empty());
                            }
                        } else {
                            let ghost st1 = *st;
                            if st.caps_down {
                                out.push(key_event("capslock", 1));
                            }
                            if st.alt_down {
                                out.push(key_event("leftalt", 1));
                            }
                            out.push(InputEvent::Key { name: name.clone(), value: *value });
                            proof {
                                assert(event_views(out@) =~= (if st1.caps_down {
                                    seq![EventView::Key { name: "capslock"@, value: 1 }]
                                } else {
                                    Seq::<EventView>::empty()
                                }) + (if st1.alt_down {
                                    seq![EventView::Key { name: "leftalt"@, value: 1 }]
                                } else {
                                    Seq::<EventView>::empty()
                                }) + seq![EventView::Key { name: name@, value: *value as int }]);
                            }
                        }
                    },
                }
            }
        },
    }
    out
}

/// Translate one batch of raw events under a single snapshot of the
/// remap-active flag, as the hot loop does: the flag is read once per batch,
/// so events later in a batch may observe a state that a mid-batch focus
/// change has already outdated.
pub fn translate_batch(
    cfg: &Vec<Setting>,
    remap_enabled: bool,
    st: &mut ModifierPressState,
    events: &Vec<InputEvent>,
) -> (out: Vec<InputEvent>)
    ensures
        ({
            let r = spec_translate_batch(
                config_view(cfg@),
                remap_enabled,
                *old(st),
                event_views(events@),
            );
            &&& *final(st) == r.0
            &&& event_views(out@) == r.1
        }),
{
    let ghost st0 = *st;
    let ghost evs = event_views(events@);
    let mut out: Vec<InputEvent> = Vec::new();
    let mut i: usize = 0;
    while i < events.len()
        invariant
            i <= events@.len(),
            evs == event_views(events@),
            evs.len() == events@.len(),
            *st == spec_translate_batch(config_view(cfg@), remap_enabled, st0, evs.take(i as int)).0,
            event_views(out@) == spec_translate_batch(
                config_view(cfg@),
                remap_enabled,
                st0,
                evs.take(i as int),
            ).1,
        decreases events@.len() - i,
    {
        let mut step = translate_event(cfg, remap_enabled, st, &events[i]);
        proof {
            assert(evs.take(i + 1).drop_last() =~= evs.take(i as int));
            assert(evs.take(i + 1).last() == events@[i as int]@);
        }
        let ghost out_before = out@;
        out.append(&mut step);
        proof {
            assert(event_views(out@) =~= event_views(out_before) + event_views(
                out@.skip(out_before.len() as int),
            ));
        }
        i += 1;
    }
    proof {
        assert(evs.take(events@.len() as int) =~= evs);
    }
    out
}

/// Law: while the shared remap-active flag is false the translator is the
/// identity.  The output sequence equals the input sequence exactly, and
/// the modifier state is untouched.
pub proof fn lemma_passthrough_identity(
    cfg: Seq<SettingView>,
    st: ModifierPressState,
    evs: Seq<EventView>,
)
    ensures
        spec_translate_batch(cfg, false, st, evs).0 == st,
        spec_translate_batch(cfg, false, st, evs).1 == evs,
    decreases evs.len(),
{
    if evs.len() == 0 {
        assert(spec_translate_batch(cfg, false, st, evs).1 =~= evs);
    } else {
        lemma_passthrough_identity(cfg, st, evs.drop_last());
        assert(spec_translate_batch(cfg, false, st, evs).1 =~= evs);
    }
}

/// Whether the rule at position (`g`, `i`) of the configuration matches the
/// key `name` under the modifier state `st`.
pub open spec fn matches_at(
    cfg: Seq<SettingView>,
    name: Seq<char>,
    st: ModifierPressState,
    g: int,
    i: int,
) -> bool {
    &&& 0 <= g < cfg.len()
    &&& 0 <= i < cfg[g].remap.len()
    &&& rule_matches(cfg[g].remap[i], name, st)
}

/// A group selects no rule exactly when none of its rules matches.
proof fn lemma_find_in_rules_none(rules: Seq<RemapRuleView>, name: Seq<char>, st: ModifierPressState)
    ensures
        (find_in_rules(rules, name, st) is None) <==> (forall|i: int|
            0 <= i < rules.len() ==> !rule_matches(#[trigger] rules[i], name, st)),
    decreases rules.len(),
{
    if rules.len() > 0 {
        lemma_find_in_rules_none(rules.drop_first(), name, st);
        assert(forall|i: int|
            0 <= i < rules.drop_first().len() ==> #[trigger] rules.drop_first()[i] == rules[i + 1]);
        if find_in_rules(rules, name, st) is None {
            assert(!rule_matches(rules[0], name, st));
            assert forall|i: int| 0 <= i < rules.len() implies !rule_matches(
                #[trigger] rules[i],
                name,
                st,
            ) by {
                if i > 0 {
                    assert(rules.drop_first()[i - 1] == rules[i]);
                }
            }
        } else {
            if rule_matches(rules.first(), name, st) {
                assert(rule_matches(rules[0], name, st));
            } else {
                let j = choose|j: int|
                    0 <= j < rules.drop_first().len() && rule_matches(
                        rules.drop_first()[j],
                        name,
                        st,
                    );
                assert(rule_matches(rules[j + 1], name, st));
            }
        }
    }
}

/// The first match within one group: a rule that matches, with no earlier
/// rule of the group matching, is the group's selected rule.
proof fn lemma_find_in_rules_first(
    rules: Seq<RemapRuleView>,
    name: Seq<char>,
    st: ModifierPressState,
    i: int,
)
    requires
        0 <= i < rules.len(),
        rule_matches(rules[i], name, st),
        forall|j: int| 0 <= j < i ==> !rule_matches(#[trigger] rules[j], name, st),
    ensures
        find_in_rules(rules, name, st) == Some(rules[i]),
{
    lemma_find_in_rules_skip(rules, name, st, i);
    assert(rules.skip(i).first() == rules[i]);
}

/// Law: first-match-wins determinism.  At most one rule is ever selected
/// for a key event, and it is the earliest declared match: if the rule at
/// (`g`, `i`) matches and no rule of an earlier group, nor an earlier rule
/// of the same group, matches, then exactly that rule is selected.
pub proof fn lemma_first_match_wins(
    cfg: Seq<SettingView>,
    name: Seq<char>,
    st: ModifierPressState,
    g: int,
    i: int,
)
    requires
        matches_at(cfg, name, st, g, i),
        forall|g2: int, i2: int|
            matches_at(cfg, name, st, g2, i2) ==> !(g2 < g || (g2 == g && i2 < i)),
    ensures
        find_rule(cfg, name, st) == Some(cfg[g].remap[i]),
{
    assert forall|j: int| 0 <= j < g implies find_in_rules(
        #[trigger] cfg[j].remap,
        name,
        st,
    ) is None by {
        assert forall|i2: int| 0 <= i2 < cfg[j].remap.len() implies !rule_matches(
            #[trigger] cfg[j].remap[i2],
            name,
            st,
        ) by {
            if rule_matches(cfg[j].remap[i2], name, st) {
                assert(matches_at(cfg, name, st, j, i2));
            }
        }
        lemma_find_in_rules_none(cfg[j].remap, name, st);
    }
    lemma_find_rule_skip(cfg, name, st, g);
    assert(cfg.skip(g).first() == cfg[g]);
    assert forall|j: int| 0 <= j < i implies !rule_matches(
        #[trigger] cfg[g].remap[j],
        name,
        st,
    ) by {
        if rule_matches(cfg[g].remap[j], name, st) {
            assert(matches_at(cfg, name, st, g, j));
        }
    }
    lemma_find_in_rules_first(cfg[g].remap, name, st, i);
}

/// The modifier state a downstream consumer infers by replaying a synthetic
/// event stream, starting from what it believed before.
pub open spec fn replay_mods(ds: ModifierPressState, evs: Seq<EventView>) -> ModifierPressState
    decreases evs.len(),
{
    if evs.len() == 0 {
        ds
    } else {
        let prev = replay_mods(ds, evs.drop_last());
        match evs.last() {
            EventView::Key { name, value } => spec_update_mods(prev, name, value),
            EventView::Sync => prev,
        }
    }
}

/// Replaying a concatenation is replaying the parts in order.
proof fn lemma_replay_concat(ds: ModifierPressState, x: Seq<EventView>, y: Seq<EventView>)
    ensures
        replay_mods(ds, x + y) == replay_mods(replay_mods(ds, x), y),
    decreases y.len(),
{
    if y.len() == 0 {
        assert(x + y =~= x);
    } else {
        lemma_replay_concat(ds, x, y.drop_last());
        assert((x + y).drop_last() =~= x + y.drop_last());
        assert((x + y).last() == y.last());
    }
}

proof fn lemma_replay_one(ds: ModifierPressState, e: EventView)
    ensures
        replay_mods(ds, seq![e]) == (match e {
            EventView::Key { name, value } => spec_update_mods(ds, name, value),
            EventView::Sync => ds,
        }),
{
    assert(seq![e].drop_last() =~= Seq::<EventView>::empty());
    assert(seq![e].last() == e);
    assert(replay_mods(ds, Seq::<EventView>::empty()) == ds);
}

/// Law: bracket symmetry.  For a substituted key that requires Ctrl (and is
/// itself an ordinary key, not one of the tracked modifier keys), the
/// bracket contains a Caps key-down strictly before the substituted key
/// event and a Caps key-up strictly after it; and replaying the bracket
/// leaves no synthetic modifier down: downstream Caps ends released, Shift
/// ends released when the bracket pressed it, and Alt ends released exactly
/// when the bracket suppressed a held Alt.
pub proof fn lemma_bracket_ctrl_symmetry(
    st: ModifierPressState,
    to: KeyComboView,
    value: int,
    ds: ModifierPressState,
)
    requires
        to.is_ctrl,
        !is_swallowed_modifier(to.keyname),
        to.keyname != "leftshift"@,
    ensures
        ({
            let b = spec_bracket(st, to, value);
            &&& exists|d: int, k: int, u: int|
                {
                    &&& 0 <= d < k < u < b.len()
                    &&& b[d] == (EventView::Key { name: "capslock"@, value: 1 })
                    &&& b[k] == (EventView::Key { name: to.keyname, value: value })
                    &&& b[u] == (EventView::Key { name: "capslock"@, value: 0 })
                }
            &&& !replay_mods(ds, b).caps_down
            &&& replay_mods(ds, b).shift_down == (if to.is_shift {
                false
            } else {
                ds.shift_down
            })
            &&& replay_mods(ds, b).alt_down == (if st.alt_down && !to.is_alt {
                false
            } else {
                ds.alt_down
            })
        }),
{
    reveal_strlit("capslock");
    reveal_strlit("leftalt");
    reveal_strlit("rightalt");
    reveal_strlit("leftshift");
    assert("capslock"@.len() == 8);
    assert("leftalt"@.len() == 7);
    assert("rightalt"@.len() == 8);
    assert("leftshift"@.len() == 9);
    assert("leftalt"@ != "capslock"@ && "leftalt"@ != "leftshift"@ && "capslock"@
        != "leftshift"@);
    let b = spec_bracket(st, to, value);
    let s1 = Seq::<EventView>::empty();
    let s2 = if st.alt_down && !to.is_alt {
        seq![EventView::Key { name: "leftalt"@, value: 0 }]
    } else {
        Seq::<EventView>::empty()
    };
    let s3 = seq![EventView::Key { name: "capslock"@, value: 1 }];
    let s4 = if to.is_shift {
        seq![EventView::Key { name: "leftshift"@, value: 1 }]
    } else {
        Seq::<EventView>::empty()
    };
    let s5 = seq![EventView::Key { name: to.keyname, value: value }];
    let s6 = if to.is_shift {
        seq![EventView::Key { name: "leftshift"@, value: 0 }]
    } else {
        Seq::<EventView>::empty()
    };
    let s7 = seq![EventView::Key { name: "capslock"@, value: 0 }];
    assert(b == s1 + s2 + s3 + s4 + s5 + s6 + s7);
    lemma_replay_concat(ds, s1 + s2 + s3 + s4 + s5 + s6, s7);
    lemma_replay_concat(ds, s1 + s2 + s3 + s4 + s5, s6);
    lemma_replay_concat(ds, s1 + s2 + s3 + s4, s5);
    lemma_replay_concat(ds, s1 + s2 + s3, s4);
    lemma_replay_concat(ds, s1 + s2, s3);
    lemma_replay_concat(ds, s1, s2);
    assert(replay_mods(ds, s1) == ds);
    if st.alt_down && !to.is_alt {
        lemma_replay_one(ds, EventView::Key { name: "leftalt"@, value: 0 });
    }
    let ds2 = replay_mods(ds, s1 + s2);
    lemma_replay_one(ds2, EventView::Key { name: "capslock"@, value: 1 });
    let ds3 = replay_mods(ds, s1 + s2 + s3);
    if to.is_shift {
        lemma_replay_one(ds3, EventView::Key { name: "leftshift"@, value: 1 });
    }
    let ds4 = replay_mods(ds, s1 + s2 + s3 + s4);
    lemma_replay_one(ds4, EventView::Key { name: to.keyname, value: value });
    let ds5 = replay_mods(ds, s1 + s2 + s3 + s4 + s5);
    if to.is_shift {
        lemma_replay_one(ds5, EventView::Key { name: "leftshift"@, value: 0 });
    }
    let ds6 = replay_mods(ds, s1 + s2 + s3 + s4 + s5 + s6);
    lemma_replay_one(ds6, EventView::Key { name: "capslock"@, value: 0 });
    let d: int = s2.len() as int;
    let k: int = d + 1 + s4.len();
    let u: int = b.len() - 1;
    assert(b.len() == s2.len() + 3 + 2 * s4.len());
    assert(b[d] == (EventView::Key { name: "capslock"@, value: 1 }));
    assert(b[k] == (EventView::Key { name: to.keyname, value: value }));
    assert(b[u] == (EventView::Key { name: "capslock"@, value: 0 }));
    assert(0 <= d < k < u < b.len());
    assert(exists|d2: int, k2: int, u2: int|
        {
            &&& 0 <= d2 < k2 < u2 < b.len()
            &&& b[d2] == (EventView::Key { name: "capslock"@, value: 1 })
            &&& b[k2] == (EventView::Key { name: to.keyname, value: value })
            &&& b[u2] == (EventView::Key { name: "capslock"@, value: 0 })
        });
    assert(!replay_mods(ds, b).caps_down);
    assert(replay_mods(ds, b).shift_down == (if to.is_shift {
        false
    } else {
        ds.shift_down
    }));
    assert(replay_mods(ds, b).alt_down == (if st.alt_down && !to.is_alt {
        false
    } else {
        ds.alt_down
    }));
}

/// Law: swallow/reconstruct round trip.  When Caps goes down with no rule
/// keyed on it, nothing is forwarded; when a later ordinary key matches no
/// rule either, its synthetic stream is preceded by a reconstructed Caps
/// key-down, even though the physical Caps press itself was never forwarded.
pub proof fn lemma_swallow_reconstruct(
    cfg: Seq<SettingView>,
    st: ModifierPressState,
    name: Seq<char>,
    value: int,
)
    requires
        find_rule(cfg, "capslock"@, spec_update_mods(st, "capslock"@, 1)) is None,
        !is_swallowed_modifier(name),
        ({
            let st1 = spec_translate_key(cfg, st, "capslock"@, 1).0;
            find_rule(cfg, name, spec_update_mods(st1, name, value)) is None
        }),
    ensures
        spec_translate_key(cfg, st, "capslock"@, 1).1 == Seq::<EventView>::empty(),
        ({
            let caps_step = spec_translate_key(cfg, st, "capslock"@, 1);
            let key_step = spec_translate_key(cfg, caps_step.0, name, value);
            &&& key_step.1.len() >= 2
            &&& key_step.1[0] == (EventView::Key { name: "capslock"@, value: 1 })
            &&& key_step.1.last() == (EventView::Key { name: name, value: value })
        }),
{
    let st1 = spec_translate_key(cfg, st, "capslock"@, 1).0;
    assert(st1.caps_down);
    let st2 = spec_update_mods(st1, name, value);
    assert(st2.caps_down);
}

} // verus!
