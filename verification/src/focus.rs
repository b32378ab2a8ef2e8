//! The focus gate: resolve which application identifier the compositor says
//! is focused, and decide whether remapping is active for it.

use vstd::prelude::*;
use crate::rules::{Setting, config_view};
use crate::config_parser::str_eq;

verus! {

/// A focus-change notification whose payload names no application is fatal:
/// continuing with a stale or ambiguous focus state is unsafe for a system
/// that intercepts every keystroke.
#[derive(Debug, PartialEq, Eq, Structural, Clone, Copy)]
pub enum FocusError {
    MissingWindowIdentity,
}

/// Whether remapping is active for the application `app`: true iff some
/// group's application list contains it.
pub open spec fn spec_remap_enabled(cfg: Seq<crate::rules::SettingView>, app: Seq<char>) -> bool {
    exists|g: int| 0 <= g < cfg.len() && #[trigger] cfg[g].applications.contains(app)
}

/// Resolve the focused application's identifier from a focus-change payload:
/// the native application id is preferred, the window-class property is the
/// fallback, and a payload carrying neither is an error.
pub fn get_window_class(app_id: Option<String>, window_class: Option<String>) -> (r: Result<
    String,
    FocusError,
>)
    ensures
        match r {
            Ok(ident) => {
                &&& app_id is Some ==> ident == app_id.unwrap()
                &&& app_id is None ==> window_class is Some && ident == window_class.unwrap()
            },
            Err(e) => {
                &&& app_id is None && window_class is None
                &&& e == FocusError::MissingWindowIdentity
            },
        },
{
    match app_id {
        Some(id) => Ok(id),
        None => match window_class {
            Some(class) => Ok(class),
            None => Err(FocusError::MissingWindowIdentity),
        },
    }
}

/// Decide the shared remap-active flag for a newly focused application:
/// true iff any group is scoped to it.
pub fn remap_enabled_for(cfg: &Vec<Setting>, app: &String) -> (r: bool)
    ensures
        r == spec_remap_enabled(config_view(cfg@), app@),
{
    let ghost cfgv = config_view(cfg@);
    let mut g: usize = 0;
    while g < cfg.len()
        invariant
            g <= cfg@.len(),
            cfgv == config_view(cfg@),
            cfgv.len() == cfg@.len(),
            forall|g2: int| 0 <= g2 < g ==> !(#[trigger] cfgv[g2].applications.contains(app@)),
        decreases cfg@.len() - g,
    {
        let apps = &cfg[g].applications;
        let mut j: usize = 0;
        while j < apps.len()
            invariant
                j <= apps@.len(),
                apps@ == cfg@[g as int].applications@,
                g < cfg@.len(),
                cfgv == config_view(cfg@),
                cfgv.len() == cfg@.len(),
                forall|j2: int| 0 <= j2 < j ==> apps@[j2]@ != app@,
            decreases apps@.len() - j,
        {
            if str_eq(apps[j].as_str(), app.as_str()) {
                proof {
                    assert(cfgv[g as int].applications[j as int] == app@);
                    assert(cfgv[g as int].applications.contains(app@));
                }
                return true;
            }
            j += 1;
        }
        proof {
            assert forall|x: int|
                0 <= x < cfgv[g as int].applications.len() implies cfgv[g as int].applications[x]
                != app@ by {
                assert(cfgv[g as int].applications[x] == apps@[x]@);
            }
        }
        g += 1;
    }
    false
}

} // verus!
