use vstd::prelude::*;
use crate::approval::{ApprovalDecision, ApprovalManager, contains_str};
use crate::security::{AutonomyLevel, SecurityPolicy, record_step};
use crate::text::views;
use crate::tool::ToolResult;

verus! {

/// One tool invocation that the model requested; `arguments` is JSON text.
pub struct ToolCall {
    pub id: String,
    pub name: String,
    pub arguments: String,
}

/// The verdict on one tool call, before it runs.
pub enum Gate {
    /// Run the tool.
    Execute,
    /// Ask a human first, then pass the answer to `ApprovalManager::decide`.
    AskHuman,
    /// Do not run it; report this outcome to the model.
    Blocked(ToolResult),
}

/// `g` blocks the call with error text `msg`.
pub open spec fn blocked_with(g: Gate, msg: Seq<char>) -> bool {
    match g {
        Gate::Blocked(t) => !t.success && t.output@.len() == 0 && t.error is Some && t.error->0@
            == msg,
        _ => false,
    }
}

/// The registry's tool names without the excluded ones, order kept.
pub open spec fn without_excluded(names: Seq<Seq<char>>, excluded: Seq<Seq<char>>) -> Seq<
    Seq<char>,
> {
    names.filter(|n: Seq<char>| !excluded.contains(n))
}

pub fn available_tools(registry: &Vec<String>, excluded: &Vec<String>) -> (r: Vec<String>)
    ensures
        views(r@) == without_excluded(views(registry@), views(excluded@)),
{
    let mut out: Vec<String> = Vec::new();
    let mut i: usize = 0;
    while i < registry.len()
        invariant
            i <= registry@.len(),
            views(out@) == without_excluded(views(registry@).subrange(0, i as int), views(excluded@)),
        decreases registry@.len() - i,
    {
        let ghost pre = views(registry@).subrange(0, i as int);
        assert(views(registry@).subrange(0, i + 1) =~= pre.push(registry@[i as int]@));
        proof {
            pre.lemma_filter_push(registry@[i as int]@, |n: Seq<char>| !views(excluded@).contains(n));
        }
        if !contains_str(excluded, registry[i].as_str()) {
            let ghost before = views(out@);
            out.push(registry[i].clone());
            assert(views(out@) =~= before.push(registry@[i as int]@));
        }
        i = i + 1;
    }
    assert(views(registry@).subrange(0, registry@.len() as int) =~= views(registry@));
    out
}

/// Checks a call of `name` at time `now` (seconds). First the tool must be
/// available; then the policy must allow acting; then one unit of the
/// budget is taken; last, a sensitive tool under supervision waits for a
/// human.
pub fn gate_tool_call(
    policy: &mut SecurityPolicy,
    approvals: &ApprovalManager,
    available: &Vec<String>,
    name: &str,
    now: u64,
) -> (r: Gate)
    ensures
        !views(available@).contains(name@) ==> *final(policy) == *old(policy) && blocked_with(
            r,
            "Unknown tool: "@ + name@,
        ),
        views(available@).contains(name@) && old(policy).autonomy == AutonomyLevel::ReadOnly ==> *final(policy)
            == *old(policy) && blocked_with(r, "Action blocked: autonomy is read-only"@),
        views(available@).contains(name@) && old(policy).autonomy != AutonomyLevel::ReadOnly ==> *final(policy)
            == record_step(*old(policy), now).0,
        views(available@).contains(name@) && old(policy).autonomy != AutonomyLevel::ReadOnly
            && !record_step(*old(policy), now).1 ==> blocked_with(
            r,
            "Action blocked: rate limit exceeded"@,
        ),
        views(available@).contains(name@) && old(policy).autonomy != AutonomyLevel::ReadOnly
            && record_step(*old(policy), now).1 ==> (r is AskHuman <==> (approvals.level()
            == AutonomyLevel::Supervised && approvals.sensitive().contains(name@))) && (r is AskHuman
            || r is Execute),
{
    if !contains_str(available, name) {
        let mut m = String::from_str("Unknown tool: ");
        m.append(name);
        return Gate::Blocked(ToolResult::failure(m));
    }
    if !policy.can_act() {
        return Gate::Blocked(
            ToolResult::failure(String::from_str("Action blocked: autonomy is read-only")),
        );
    }
    if !policy.record_action(now) {
        return Gate::Blocked(
            ToolResult::failure(String::from_str("Action blocked: rate limit exceeded")),
        );
    }
    if approvals.needs_approval(name) {
        Gate::AskHuman
    } else {
        Gate::Execute
    }
}

/// After a human was asked: `None` to run the tool, or the outcome that
/// reports the denial.
pub fn after_approval(decision: ApprovalDecision) -> (r: Option<ToolResult>)
    ensures
        decision == ApprovalDecision::Denied ==> r is Some && !r->0.success && r->0.error is Some
            && r->0.error->0@ == "Action denied: approval was not granted"@,
        decision != ApprovalDecision::Denied ==> r is None,
{
    match decision {
        ApprovalDecision::Denied => Some(
            ToolResult::failure(String::from_str("Action denied: approval was not granted")),
        ),
        _ => None,
    }
}

/// The text a `tool` message carries for an outcome: the output on success,
/// the error (or the output, where there is none) on failure.
pub open spec fn outcome_text(success: bool, output: Seq<char>, error: Option<Seq<char>>) -> Seq<
    char,
> {
    if success {
        output
    } else {
        match error {
            Some(e) => e,
            None => output,
        }
    }
}

pub fn tool_message_text(r: &ToolResult) -> (s: String)
    ensures
        s@ == outcome_text(
            r.success,
            r.output@,
            match r.error {
                Some(e) => Some(e@),
                None => None,
            },
        ),
{
    if r.success {
        r.output.clone()
    } else {
        match &r.error {
            Some(e) => e.clone(),
            None => r.output.clone(),
        }
    }
}

/// What the model's turn was.
pub enum ModelTurn {
    /// Final text, no tool calls.
    Text(String),
    /// Tool calls, with whatever text came along.
    ToolCalls(String, Vec<ToolCall>),
    /// A failure that may pass if the same request is sent again.
    Transient(String),
    /// A failure that ends the turn.
    Failed(String),
}

/// Why a loop run ended without text.
pub enum LoopError {
    Cancelled,
    Provider(String),
}

/// What the loop's driver does next.
pub enum LoopAction {
    /// Send the history to the model.
    CallModel,
    /// Run these calls in order, appending each outcome to the history,
    /// then call `ToolLoop::after_tools`.
    RunTools(Vec<ToolCall>),
    /// Done, with this text.
    Finish(String),
    /// Done, with this error.
    Fail(LoopError),
}

/// The tool-call loop's state: model turns that requested tools so far, and
/// retries of the current request.
pub struct ToolLoop {
    iteration: u32,
    max_iterations: u32,
    retries: u32,
    max_retries: u32,
}

impl ToolLoop {
    pub closed spec fn iteration(&self) -> nat {
        self.iteration as nat
    }

    pub closed spec fn max_iterations(&self) -> nat {
        self.max_iterations as nat
    }

    pub closed spec fn retries(&self) -> nat {
        self.retries as nat
    }

    pub closed spec fn max_retries(&self) -> nat {
        self.max_retries as nat
    }

    pub open spec fn wf(&self) -> bool {
        self.iteration() <= self.max_iterations() && self.retries() <= self.max_retries()
    }

    /// A loop that runs tools for at most `max_iterations` model turns and
    /// retries a transient failure at most `max_retries` times in a row.
    pub fn new(max_iterations: u32, max_retries: u32) -> (r: Self)
        ensures
            r.iteration() == 0,
            r.retries() == 0,
            r.max_iterations() == max_iterations,
            r.max_retries() == max_retries,
            r.wf(),
    {
        ToolLoop { iteration: 0, max_iterations, retries: 0, max_retries }
    }

    /// The first step: call the model unless cancelled.
    pub fn start(&self, cancelled: bool) -> (r: LoopAction)
        ensures
            cancelled ==> r matches LoopAction::Fail(LoopError::Cancelled),
            !cancelled ==> r is CallModel,
    {
        if cancelled {
            LoopAction::Fail(LoopError::Cancelled)
        } else {
            LoopAction::CallModel
        }
    }

    /// The step after the model's turn.
    pub fn on_model_turn(&mut self, turn: ModelTurn, cancelled: bool) -> (r: LoopAction)
        requires
            old(self).wf(),
        ensures
            final(self).wf(),
            final(self).max_iterations() == old(self).max_iterations(),
            final(self).max_retries() == old(self).max_retries(),
            cancelled ==> r matches LoopAction::Fail(LoopError::Cancelled),
            !cancelled ==> match turn {
                ModelTurn::Text(t) => r matches LoopAction::Finish(s) && s@ == t@,
                ModelTurn::Failed(e) => r matches LoopAction::Fail(LoopError::Provider(m)) && m@
                    == e@,
                ModelTurn::Transient(e) => if old(self).retries() < old(self).max_retries() {
                    r is CallModel && final(self).retries() == old(self).retries() + 1
                        && final(self).iteration() == old(self).iteration()
                } else {
                    r matches LoopAction::Fail(LoopError::Provider(m)) && m@ == e@
                },
                ModelTurn::ToolCalls(t, calls) => if calls@.len() == 0 || old(self).iteration()
                    >= old(self).max_iterations() {
                    r matches LoopAction::Finish(s) && s@ == t@
                } else {
                    r matches LoopAction::RunTools(cs) && cs@ == calls@ && final(self).iteration()
                        == old(self).iteration() + 1 && final(self).retries() == 0
                },
            },
            r is RunTools ==> final(self).iteration() == old(self).iteration() + 1,
            !(r is RunTools) ==> final(self).iteration() == old(self).iteration(),
    {
        if cancelled {
            return LoopAction::Fail(LoopError::Cancelled);
        }
        match turn {
            ModelTurn::Text(t) => LoopAction::Finish(t),
            ModelTurn::Failed(e) => LoopAction::Fail(LoopError::Provider(e)),
            ModelTurn::Transient(e) => {
                if self.retries < self.max_retries {
                    self.retries = self.retries + 1;
                    LoopAction::CallModel
                } else {
                    LoopAction::Fail(LoopError::Provider(e))
                }
            },
            ModelTurn::ToolCalls(t, calls) => {
                if calls.len() == 0 || self.iteration >= self.max_iterations {
                    LoopAction::Finish(t)
                } else {
                    self.iteration = self.iteration + 1;
                    self.retries = 0;
                    LoopAction::RunTools(calls)
                }
            },
        }
    }

    /// The step after the requested calls ran and their outcomes were
    /// appended.
    pub fn after_tools(&self, cancelled: bool) -> (r: LoopAction)
        ensures
            cancelled ==> r matches LoopAction::Fail(LoopError::Cancelled),
            !cancelled ==> r is CallModel,
    {
        self.start(cancelled)
    }
}

} // verus!
