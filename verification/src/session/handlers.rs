//! How a pooled connection answers an agent's requests, depending on
//! whether a live turn owns it.
use vstd::prelude::*;

verus! {

/// How a live turn answers permission requests.
#[derive(Debug, Clone, Copy, PartialEq, Eq, Structural)]
pub enum PermissionPolicy {
    /// Deny every request.
    Restricted,
    /// Allow every request.
    Auto,
    /// Ask the user.
    Ask,
}

/// The answer to a permission request.
#[derive(Debug, Clone, Copy, PartialEq, Eq, Structural)]
pub enum PermissionDecision {
    Deny,
    Allow,
    AskUser,
}

/// What a request for user input (elicitation, ask-user) gets.
#[derive(Debug, Clone, Copy, PartialEq, Eq, Structural)]
pub enum InputDecision {
    /// Forward it to the live turn's user prompt.
    AskUser,
    /// Cancel it.
    Cancel,
}

/// The permission answer: by the live turn's policy, and denied when no
/// live turn owns the connection.
pub open spec fn permission_of(turn_policy: Option<PermissionPolicy>) -> PermissionDecision {
    match turn_policy {
        Some(PermissionPolicy::Restricted) => PermissionDecision::Deny,
        Some(PermissionPolicy::Auto) => PermissionDecision::Allow,
        Some(PermissionPolicy::Ask) => PermissionDecision::AskUser,
        None => PermissionDecision::Deny,
    }
}

/// Decide a permission request; `turn_policy` is the policy of the turn
/// that owns the connection, `None` when it is warm and idle.
pub fn decide_permission(turn_policy: Option<PermissionPolicy>) -> (r: PermissionDecision)
    ensures
        r == permission_of(turn_policy),
{
    match turn_policy {
        Some(PermissionPolicy::Restricted) => PermissionDecision::Deny,
        Some(PermissionPolicy::Auto) => PermissionDecision::Allow,
        Some(PermissionPolicy::Ask) => PermissionDecision::AskUser,
        None => PermissionDecision::Deny,
    }
}

/// Decide a request for user input: forwarded during a live turn, cancelled
/// otherwise.
pub fn decide_user_input(turn_active: bool) -> (r: InputDecision)
    ensures
        r == (if turn_active {
            InputDecision::AskUser
        } else {
            InputDecision::Cancel
        }),
{
    if turn_active {
        InputDecision::AskUser
    } else {
        InputDecision::Cancel
    }
}

/// Law: an unsupervised (warm, idle) agent is never allowed to act, and
/// no policy allows without being `Auto`.
pub proof fn lemma_idle_agent_never_allowed(turn_policy: Option<PermissionPolicy>)
    ensures
        turn_policy is None ==> permission_of(turn_policy) == PermissionDecision::Deny,
        permission_of(turn_policy) == PermissionDecision::Allow ==> turn_policy == Some(
            PermissionPolicy::Auto,
        ),
{
}

} // verus!
