use vstd::prelude::*;
use crate::security::AutonomyLevel;
use crate::text::{chars_of, eq_chars, views};

verus! {

/// The approval gate's answer for one tool invocation.
#[derive(Clone, Copy, Debug, PartialEq, Eq, Structural)]
pub enum ApprovalDecision {
    Approved,
    Denied,
    NotRequired,
}

/// Whether `name` is one of `names`.
pub fn contains_str(names: &Vec<String>, name: &str) -> (r: bool)
    ensures
        r == views(names@).contains(name@),
{
    let nc = chars_of(name);
    let mut i: usize = 0;
    while i < names.len()
        invariant
            nc@ == name@,
            i <= names@.len(),
            forall|k: int| 0 <= k < i ==> views(names@)[k] != name@,
        decreases names@.len() - i,
    {
        if eq_chars(chars_of(names[i].as_str()).as_slice(), nc.as_slice()) {
            assert(views(names@)[i as int] == name@);
            return true;
        }
        i = i + 1;
    }
    false
}

/// Decides, per tool invocation, whether a human must sign off. Built once
/// per session; its configuration does not change afterwards.
pub struct ApprovalManager {
    autonomy: AutonomyLevel,
    approval_required: Vec<String>,
}

impl ApprovalManager {
    pub closed spec fn level(&self) -> AutonomyLevel {
        self.autonomy
    }

    /// The tools declared as needing approval under supervision.
    pub closed spec fn sensitive(&self) -> Seq<Seq<char>> {
        views(self.approval_required@)
    }

    pub fn from_config(autonomy: AutonomyLevel, approval_required: Vec<String>) -> (r: Self)
        ensures
            r.level() == autonomy,
            r.sensitive() == views(approval_required@),
    {
        ApprovalManager { autonomy, approval_required }
    }

    /// Whether a call of `tool_name` waits for a human's answer.
    pub fn needs_approval(&self, tool_name: &str) -> (r: bool)
        ensures
            r == (self.level() == AutonomyLevel::Supervised && self.sensitive().contains(
                tool_name@,
            )),
    {
        self.autonomy == AutonomyLevel::Supervised && contains_str(
            &self.approval_required,
            tool_name,
        )
    }

    /// The decision on a call of `tool_name`; `answer` is the human's reply,
    /// `None` where none came within the wait. A read-only session is never
    /// approved; an unanswered request is denied.
    pub fn decide(&self, tool_name: &str, answer: Option<bool>) -> (r: ApprovalDecision)
        ensures
            self.level() == AutonomyLevel::Full ==> r == ApprovalDecision::NotRequired,
            self.level() == AutonomyLevel::ReadOnly ==> r == ApprovalDecision::Denied,
            self.level() == AutonomyLevel::Supervised && !self.sensitive().contains(tool_name@)
                ==> r == ApprovalDecision::NotRequired,
            self.level() == AutonomyLevel::Supervised && self.sensitive().contains(tool_name@) ==> (r
                == if answer == Some(true) {
                ApprovalDecision::Approved
            } else {
                ApprovalDecision::Denied
            }),
    {
        match self.autonomy {
            AutonomyLevel::Full => ApprovalDecision::NotRequired,
            AutonomyLevel::ReadOnly => ApprovalDecision::Denied,
            AutonomyLevel::Supervised => {
                if !contains_str(&self.approval_required, tool_name) {
                    ApprovalDecision::NotRequired
                } else if answer == Some(true) {
                    ApprovalDecision::Approved
                } else {
                    ApprovalDecision::Denied
                }
            },
        }
    }
}

} // verus!
