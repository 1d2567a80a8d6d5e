//! Tool-call permissions: how a call is classified and what a policy decides.
use vstd::prelude::*;

use crate::text::push_str;

verus! {

/// A JSON value, as tool-call arguments arrive; the classifiers here never
/// look inside one.
#[verifier::external_type_specification]
#[verifier::external_body]
pub struct ExJsonValue(serde_json::Value);

/// How much a tool call may change the world.
#[derive(Copy, Clone, Debug, Eq, PartialEq, Hash, Structural)]
pub enum Classification {
    Read,
    Safe,
    Unsafe,
}

/// The lowercase name of a classification.
pub open spec fn class_name(c: Classification) -> Seq<char> {
    match c {
        Classification::Read => "read"@,
        Classification::Safe => "safe"@,
        Classification::Unsafe => "unsafe"@,
    }
}

impl Classification {
    /// The lowercase name of the classification.
    pub fn as_str(&self) -> (s: &'static str)
        ensures
            s@ == class_name(*self),
    {
        match self {
            Classification::Read => "read",
            Classification::Safe => "safe",
            Classification::Unsafe => "unsafe",
        }
    }
}

/// Whether a tool call may go ahead.
#[derive(Clone, Debug, Eq, PartialEq)]
pub enum Decision {
    Allow,
    Deny { reason: String },
}

/// What a policy does with one class of calls.
#[derive(Copy, Clone, Debug, Eq, PartialEq, Structural)]
pub enum BasePolicy {
    Allow,
    Deny,
}

/// A classifier that gives every call the same classification.
pub struct ConstClassifier(pub Classification);

impl ConstClassifier {
    /// The fixed classification, whatever the call's arguments.
    pub fn classify(&self, args: &serde_json::Value) -> (c: Classification)
        ensures
            c == self.0,
    {
        self.0
    }
}

/// Allows every call.
pub struct AllowAllBackend;

impl AllowAllBackend {
    /// Always [`Decision::Allow`].
    pub fn decide(&self, name: &str, classification: Classification) -> (d: Decision)
        ensures
            d is Allow,
    {
        Decision::Allow
    }
}

/// Denies every call.
pub struct DenyAllBackend;

impl DenyAllBackend {
    /// Always a denial, with the reason `all tool calls denied by policy`.
    pub fn decide(&self, name: &str, classification: Classification) -> (d: Decision)
        ensures
            d matches Decision::Deny { reason } && reason@ == "all tool calls denied by policy"@,
    {
        Decision::Deny { reason: "all tool calls denied by policy".to_owned() }
    }
}

/// Routes each classification to its own policy.
pub struct ClassRouterBackend {
    pub on_read: BasePolicy,
    pub on_safe: BasePolicy,
    pub on_unsafe: BasePolicy,
}

impl ClassRouterBackend {
    /// The policy that applies to `c`.
    pub open spec fn policy_for(&self, c: Classification) -> BasePolicy {
        match c {
            Classification::Read => self.on_read,
            Classification::Safe => self.on_safe,
            Classification::Unsafe => self.on_unsafe,
        }
    }

    /// Allows the call when the classification's policy allows it; otherwise
    /// denies it with the reason `policy denies <class>-classified calls`.
    pub fn decide(&self, name: &str, classification: Classification) -> (d: Decision)
        ensures
            self.policy_for(classification) == BasePolicy::Allow ==> d is Allow,
            self.policy_for(classification) == BasePolicy::Deny ==> (d matches Decision::Deny {
                reason,
            } && reason@ == "policy denies "@ + class_name(classification)
                + "-classified calls"@),
    {
        let policy = match classification {
            Classification::Read => self.on_read,
            Classification::Safe => self.on_safe,
            Classification::Unsafe => self.on_unsafe,
        };
        match policy {
            BasePolicy::Allow => Decision::Allow,
            BasePolicy::Deny => {
                let mut reason = String::new();
                push_str(&mut reason, "policy denies ");
                push_str(&mut reason, classification.as_str());
                push_str(&mut reason, "-classified calls");
                Decision::Deny { reason }
            },
        }
    }
}

/// What a gated call answers in place of running the tool: nothing when
/// the decision allows it, else `permission denied: <reason>`.
pub fn denial_text(decision: &Decision) -> (r: Option<String>)
    ensures
        match *decision {
            Decision::Allow => r is None,
            Decision::Deny { reason } => r matches Some(t) && t@ == "permission denied: "@ + reason@,
        },
{
    match decision {
        Decision::Allow => None,
        Decision::Deny { reason } => {
            let mut t = String::new();
            push_str(&mut t, "permission denied: ");
            push_str(&mut t, reason.as_str());
            Some(t)
        },
    }
}

} // verus!
