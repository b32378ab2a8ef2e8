//! The rule model: an ordered sequence of application-scoped groups, each
//! holding an ordered list of remap rules.  Loaded once at startup and
//! immutable afterwards.

use vstd::prelude::*;
use crate::config_parser::{ConfigError, ConfigKeyCombination, KeyComboView, spec_parse};

verus! {

/// The mathematical model of one remap rule.
pub struct RemapRuleView {
    pub from: KeyComboView,
    pub to: Seq<KeyComboView>,
}

/// One remap rule: when `from` matches an incoming key event, the keys of
/// `to` are synthesized in order in its place.  An empty `to` swallows the
/// key.
#[derive(Debug, PartialEq, Clone)]
pub struct RemapSetting {
    pub from: ConfigKeyCombination,
    pub to: Vec<ConfigKeyCombination>,
}

impl View for RemapSetting {
    type V = RemapRuleView;

    open spec fn view(&self) -> RemapRuleView {
        RemapRuleView {
            from: self.from@,
            to: self.to@.map_values(|c: ConfigKeyCombination| c@),
        }
    }
}

/// The mathematical model of one application-scoped rule group.
pub struct SettingView {
    pub applications: Seq<Seq<char>>,
    pub remap: Seq<RemapRuleView>,
}

/// One rule group: the application identifiers it is scoped to, and its
/// rules in declaration order.
#[derive(Debug, PartialEq, Clone)]
pub struct Setting {
    pub applications: Vec<String>,
    pub remap: Vec<RemapSetting>,
}

impl View for Setting {
    type V = SettingView;

    open spec fn view(&self) -> SettingView {
        SettingView {
            applications: self.applications@.map_values(|a: String| a@),
            remap: self.remap@.map_values(|r: RemapSetting| r@),
        }
    }
}

/// The whole configuration: its groups in declaration order.
pub open spec fn config_view(cfg: Seq<Setting>) -> Seq<SettingView> {
    cfg.map_values(|s: Setting| s@)
}

/// Build one remap rule from its textual form: the `from` token and the
/// ordered `to` tokens.  Fails exactly when one of the tokens is empty.
pub fn build_remap_setting(from: &str, to: &Vec<String>) -> (r: Result<RemapSetting, ConfigError>)
    ensures
        match r {
            Ok(rule) => {
                &&& spec_parse(from@) == Some(rule@.from)
                &&& rule@.to.len() == to@.len()
                &&& forall|i: int|
                    0 <= i < to@.len() ==> spec_parse(to@[i]@) == Some(#[trigger] rule@.to[i])
            },
            Err(e) => {
                &&& e == ConfigError::EmptyToken
                &&& (from@.len() == 0 || exists|i: int| 0 <= i < to@.len() && #[trigger] to@[i]@.len() == 0)
            },
        },
{
    let from_combo = match ConfigKeyCombination::parse(from) {
        Ok(c) => c,
        Err(e) => {
            return Err(e);
        },
    };
    let mut to_combos: Vec<ConfigKeyCombination> = Vec::new();
    let mut i: usize = 0;
    while i < to.len()
        invariant
            i <= to@.len(),
            to_combos@.len() == i,
            forall|j: int|
                0 <= j < i ==> spec_parse(to@[j]@) == Some(#[trigger] to_combos@[j]@),
        decreases to@.len() - i,
    {
        match ConfigKeyCombination::parse(to[i].as_str()) {
            Ok(c) => {
                to_combos.push(c);
            },
            Err(e) => {
                return Err(e);
            },
        }
        i += 1;
    }
    let rule = RemapSetting { from: from_combo, to: to_combos };
    proof {
        assert(rule@.to =~= to_combos@.map_values(|c: ConfigKeyCombination| c@));
    }
    Ok(rule)
}

/// Build one rule group from its textual form.  Fails exactly when one of
/// the rules fails to build.
pub fn build_setting(applications: Vec<String>, remap_tokens: &Vec<(String, Vec<String>)>) -> (r:
    Result<Setting, ConfigError>)
    ensures
        match r {
            Ok(s) => {
                &&& s@.applications == applications@.map_values(|a: String| a@)
                &&& s@.remap.len() == remap_tokens@.len()
                &&& forall|i: int|
                    0 <= i < remap_tokens@.len() ==> {
                        &&& spec_parse(remap_tokens@[i].0@) == Some(#[trigger] s@.remap[i].from)
                        &&& s@.remap[i].to.len() == remap_tokens@[i].1@.len()
                        &&& forall|j: int|
                            0 <= j < remap_tokens@[i].1@.len() ==> spec_parse(
                                remap_tokens@[i].1@[j]@,
                            ) == Some(#[trigger] s@.remap[i].to[j])
                    }
            },
            Err(e) => {
                &&& e == ConfigError::EmptyToken
                &&& exists|i: int|
                    0 <= i < remap_tokens@.len() && (#[trigger] remap_tokens@[i].0@.len() == 0
                        || exists|j: int|
                        0 <= j < remap_tokens@[i].1@.len() && #[trigger] remap_tokens@[i].1@[j]@.len()
                            == 0)
            },
        },
{
    let mut rules: Vec<RemapSetting> = Vec::new();
    let mut i: usize = 0;
    while i < remap_tokens.len()
        invariant
            i <= remap_tokens@.len(),
            rules@.len() == i,
            forall|k: int|
                0 <= k < i ==> {
                    &&& spec_parse(remap_tokens@[k].0@) == Some(#[trigger] rules@[k]@.from)
                    &&& rules@[k]@.to.len() == remap_tokens@[k].1@.len()
                    &&& forall|j: int|
                        0 <= j < remap_tokens@[k].1@.len() ==> spec_parse(
                            remap_tokens@[k].1@[j]@,
                        ) == Some(#[trigger] rules@[k]@.to[j])
                },
        decreases remap_tokens@.len() - i,
    {
        let pair = &remap_tokens[i];
        match build_remap_setting(pair.0.as_str(), &pair.1) {
            Ok(rule) => {
                rules.push(rule);
            },
            Err(e) => {
                proof {
                    assert(remap_tokens@[i as int].0@.len() == 0 || exists|j: int|
                        0 <= j < remap_tokens@[i as int].1@.len()
                            && #[trigger] remap_tokens@[i as int].1@[j]@.len() == 0);
                }
                return Err(e);
            },
        }
        i += 1;
    }
    let s = Setting { applications, remap: rules };
    proof {
        assert(s@.remap =~= rules@.map_values(|r: RemapSetting| r@));
    }
    Ok(s)
}

} // verus!
