//! The closed vocabulary of kobject lifecycle actions.

use vstd::prelude::*;

use crate::error::Error;
use crate::error::ErrorView;
use crate::text::str_eq;

verus! {

/// KObject action types
///
/// See kobject_action in include/linux/kobject.h
#[derive(Debug, Clone, Copy, Eq, PartialEq, Hash, Structural)]
pub enum ActionType {
    /// A new kobject is added
    Add,
    /// A kobject is removed
    Remove,
    /// the kobject changed its internal state
    ///
    /// the `env` contains kobject-specific information.
    Change,
    /// the kobject is reparented as a result of `kobject_move`
    ///
    /// the `env` contains `DEVPATH_OLD=<oldpath>`.
    Move,
    /// The device is back online after successful `device_offline`.
    Online,
    /// The device is ready to be hot-removed.
    Offline,
    /// The device is bound to a driver.
    Bind,
    /// The device is not bound to its driver anymore.
    Unbind,
}

/// The action named by `t`, if `t` is one of the eight recognized
/// lowercase tokens.  Matching is exact-string and case-sensitive, with no
/// trimming and no aliases; every other token names no action.
pub open spec fn action_of(t: Seq<char>) -> Option<ActionType> {
    if t == "add"@ {
        Some(ActionType::Add)
    } else if t == "remove"@ {
        Some(ActionType::Remove)
    } else if t == "change"@ {
        Some(ActionType::Change)
    } else if t == "move"@ {
        Some(ActionType::Move)
    } else if t == "online"@ {
        Some(ActionType::Online)
    } else if t == "offline"@ {
        Some(ActionType::Offline)
    } else if t == "bind"@ {
        Some(ActionType::Bind)
    } else if t == "unbind"@ {
        Some(ActionType::Unbind)
    } else {
        None
    }
}

impl ActionType {
    /// Classify a textual action token, or reject it with an
    /// `UnexpectedAction` error carrying the token verbatim.
    pub fn parse(token: &str) -> (r: Result<ActionType, Error>)
        ensures
            match r {
                Ok(a) => action_of(token@) == Some(a),
                Err(e) => action_of(token@) is None && e@ == ErrorView::UnexpectedAction(
                    token@,
                ),
            },
    {
        if str_eq(token, "add") {
            Ok(ActionType::Add)
        } else if str_eq(token, "remove") {
            Ok(ActionType::Remove)
        } else if str_eq(token, "change") {
            Ok(ActionType::Change)
        } else if str_eq(token, "move") {
            Ok(ActionType::Move)
        } else if str_eq(token, "online") {
            Ok(ActionType::Online)
        } else if str_eq(token, "offline") {
            Ok(ActionType::Offline)
        } else if str_eq(token, "bind") {
            Ok(ActionType::Bind)
        } else if str_eq(token, "unbind") {
            Ok(ActionType::Unbind)
        } else {
            Err(Error::UnexpectedAction(token.to_owned()))
        }
    }
}

impl core::str::FromStr for ActionType {
    type Err = Error;

    fn from_str(s: &str) -> Result<ActionType, Error> {
        ActionType::parse(s)
    }
}

} // verus!
