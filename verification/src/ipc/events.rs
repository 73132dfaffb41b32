//! Event subscriptions: reading a client's `subscribe` request, and the event
//! records that the server pushes.

use super::commands::{TreeNode, WorkspaceInfo};
use crate::text::str_eq;
use vstd::prelude::*;

verus! {

/// The kinds of event a client can subscribe to.
#[derive(Debug, Clone, PartialEq, Eq, Hash, Structural)]
pub enum SubscriptionType {
    Workspace,
    Output,
    Mode,
    Window,
    Binding,
    Shutdown,
    Tick,
    BarConfigUpdate,
    BarStateUpdate,
    Input,
}

/// A workspace event (`change` is "focus", "init", "empty", "urgent",
/// "reload", "rename" or "move").
#[derive(Debug, Clone)]
pub struct WorkspaceEvent {
    pub change: String,
    pub current: Option<WorkspaceInfo>,
    pub old: Option<WorkspaceInfo>,
}

/// A window event, carrying the container that it concerns.
#[derive(Debug)]
pub struct WindowEvent {
    pub change: String,
    pub container: TreeNode,
}

/// The subscription that an event name stands for; unknown names stand for none.
pub open spec fn subscription_named(name: Seq<char>) -> Option<SubscriptionType> {
    if name == "workspace"@ {
        Some(SubscriptionType::Workspace)
    } else if name == "output"@ {
        Some(SubscriptionType::Output)
    } else if name == "mode"@ {
        Some(SubscriptionType::Mode)
    } else if name == "window"@ {
        Some(SubscriptionType::Window)
    } else if name == "binding"@ {
        Some(SubscriptionType::Binding)
    } else if name == "shutdown"@ {
        Some(SubscriptionType::Shutdown)
    } else if name == "tick"@ {
        Some(SubscriptionType::Tick)
    } else if name == "barconfig_update"@ {
        Some(SubscriptionType::BarConfigUpdate)
    } else if name == "bar_state_update"@ {
        Some(SubscriptionType::BarStateUpdate)
    } else if name == "input"@ {
        Some(SubscriptionType::Input)
    } else {
        None
    }
}

/// The subscriptions named by a list of names, in order, unknown names skipped.
pub open spec fn subscriptions_of(names: Seq<Seq<char>>) -> Seq<SubscriptionType>
    decreases names.len(),
{
    if names.len() == 0 {
        Seq::empty()
    } else {
        let rest = subscriptions_of(names.drop_last());
        match subscription_named(names.last()) {
            Some(s) => rest.push(s),
            None => rest,
        }
    }
}

/// What `serde_json` reads from a text as a JSON array of strings, if it is one.
pub uninterp spec fn json_string_array(text: Seq<char>) -> Option<Seq<Seq<char>>>;

#[verifier::external_type_specification]
#[verifier::external_body]
pub struct ExJsonError(serde_json::Error);

/// Calls `serde_json::from_str::<Vec<String>>`. Claimed: it succeeds exactly
/// when the text is read as a JSON array of strings, and then gives those
/// strings; which text that is is left to the name `json_string_array`.
#[verifier::external_body]
fn read_string_array(text: &str) -> (r: Result<Vec<String>, serde_json::Error>)
    ensures
        match r {
            Ok(v) => json_string_array(text@) == Some(v@.map_values(|s: String| s@)),
            Err(_) => json_string_array(text@) is None,
        },
{
    serde_json::from_str::<Vec<String>>(text)
}

fn subscription_for(name: &str) -> (r: Option<SubscriptionType>)
    ensures
        r == subscription_named(name@),
{
    if str_eq(name, "workspace") {
        Some(SubscriptionType::Workspace)
    } else if str_eq(name, "output") {
        Some(SubscriptionType::Output)
    } else if str_eq(name, "mode") {
        Some(SubscriptionType::Mode)
    } else if str_eq(name, "window") {
        Some(SubscriptionType::Window)
    } else if str_eq(name, "binding") {
        Some(SubscriptionType::Binding)
    } else if str_eq(name, "shutdown") {
        Some(SubscriptionType::Shutdown)
    } else if str_eq(name, "tick") {
        Some(SubscriptionType::Tick)
    } else if str_eq(name, "barconfig_update") {
        Some(SubscriptionType::BarConfigUpdate)
    } else if str_eq(name, "bar_state_update") {
        Some(SubscriptionType::BarStateUpdate)
    } else if str_eq(name, "input") {
        Some(SubscriptionType::Input)
    } else {
        None
    }
}

/// Maps event names to subscriptions, in order, skipping names that Sway does
/// not know (as Sway does).
pub fn subscriptions_from_names(names: &Vec<String>) -> (subs: Vec<SubscriptionType>)
    ensures
        subs@ == subscriptions_of(names@.map_values(|s: String| s@)),
{
    let ghost view = names@.map_values(|s: String| s@);
    let mut subs: Vec<SubscriptionType> = Vec::new();
    let mut i: usize = 0;
    while i < names.len()
        invariant
            0 <= i <= names@.len(),
            view == names@.map_values(|s: String| s@),
            subs@ == subscriptions_of(view.subrange(0, i as int)),
        decreases names@.len() - i,
    {
        let s = subscription_for(names[i].as_str());
        assert(view.subrange(0, i + 1).drop_last() =~= view.subrange(0, i as int));
        match s {
            Some(t) => subs.push(t),
            None => {},
        }
        i = i + 1;
    }
    assert(view.subrange(0, i as int) =~= view);
    subs
}

/// Reads a `subscribe` payload, a JSON array of event names such as
/// `["workspace", "window"]`. Unknown names are skipped; text that is not a
/// JSON array of strings gives serde_json's error.
pub fn parse_subscribe_payload(payload: &str) -> (r: Result<Vec<SubscriptionType>, serde_json::Error>)
    ensures
        r is Ok <==> json_string_array(payload@) is Some,
        r is Ok ==> r.unwrap()@ == subscriptions_of(json_string_array(payload@).unwrap()),
{
    match read_string_array(payload) {
        Ok(names) => Ok(subscriptions_from_names(&names)),
        Err(e) => Err(e),
    }
}

} // verus!
