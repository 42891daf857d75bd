use vstd::prelude::*;

verus! {

/// The outcome of one safety check on a plan.
#[derive(Debug, Clone)]
pub struct SafetyCheck {
    pub check_type: String,
    pub passed: bool,
}

/// A plan of shell commands for a goal, with the safety checks made on it.
#[derive(Debug, Clone)]
pub struct CommandPlan {
    pub id: String,
    pub description: String,
    pub steps: Vec<String>,
    pub safety_checks: Vec<SafetyCheck>,
}

/// Something that turns a request into a plan.
pub trait CommandPlanner {
    fn plan_command(&self, input: &str) -> Result<CommandPlan, String>;
}

} // verus!
