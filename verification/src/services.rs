use vstd::prelude::*;
use vstd::string::StringExecFns;
use crate::command_plan::CommandPlan;
use crate::safety_policy::{all_passed, SafetyPolicy, SafetyViolation};

verus! {

/// Runs multi-step tasks.
pub struct AgentService;

/// Explains files.
pub struct ExplainService;

/// Holds plans to the safety policy.
pub struct SafetyService {
    pub policy: SafetyPolicy,
}

impl AgentService {
    pub fn new() -> (service: Self) {
        AgentService
    }

    /// Says that there is no agent yet, whatever the task.
    pub fn run_agent(&self, _input: &str) -> (answer: String)
        ensures
            answer@ == "Agent not implemented"@,
    {
        String::from_str("Agent not implemented")
    }
}

impl ExplainService {
    pub fn new() -> (service: Self) {
        ExplainService
    }

    /// Says that there is no explanation yet, whatever the file.
    pub fn explain_file(&self, _file_path: &str) -> (answer: String)
        ensures
            answer@ == "Explanation not implemented"@,
    {
        String::from_str("Explanation not implemented")
    }
}

impl SafetyService {
    /// The service with the standing policy.
    pub fn new() -> (service: Self)
        ensures
            service.policy.rules.len() == 3,
    {
        SafetyService { policy: SafetyPolicy::new() }
    }

    /// Accepts a plan all of whose safety checks passed, and refuses any
    /// other plan with the kind of its first failed check.
    pub fn validate(&self, plan: &CommandPlan) -> (result: Result<(), SafetyViolation>)
        ensures
            result is Ok <==> all_passed(plan.safety_checks@),
            result matches Err(violation) ==> exists|i: int|
                0 <= i < plan.safety_checks.len() && !(#[trigger] plan.safety_checks[i]).passed
                    && violation.check_type@ == plan.safety_checks[i].check_type@ && forall|j: int|
                    0 <= j < i ==> (#[trigger] plan.safety_checks[j]).passed,
    {
        self.policy.validate(plan)
    }
}

} // verus!
