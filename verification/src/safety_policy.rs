use vstd::prelude::*;
use vstd::string::StringExecFns;
use crate::command_plan::{CommandPlan, SafetyCheck};

verus! {

/// The rules that a plan must keep.
#[derive(Debug, Clone)]
pub struct SafetyPolicy {
    pub rules: Vec<String>,
}

/// A plan was refused because one of its safety checks failed.
#[derive(Debug, Clone)]
pub struct SafetyViolation {
    /// The kind of the first check that failed.
    pub check_type: String,
}

/// Every check of the plan passed.
pub open spec fn all_passed(checks: Seq<SafetyCheck>) -> bool {
    forall|i: int| 0 <= i < checks.len() ==> (#[trigger] checks[i]).passed
}

/// What is said of a failed check.
pub open spec fn violation_text(check_type: Seq<char>) -> Seq<char> {
    "Safety check failed: "@ + check_type
}

impl SafetyViolation {
    /// What is said of the violation.
    pub fn message(&self) -> (text: String)
        ensures
            text@ == violation_text(self.check_type@),
    {
        let mut text = String::from_str("Safety check failed: ");
        text.append(self.check_type.as_str());
        text
    }
}

impl SafetyPolicy {
    /// The policy with the three standing rules.
    pub fn new() -> (policy: Self)
        ensures
            policy.rules.len() == 3,
            policy.rules[0]@ == "No file system writes"@,
            policy.rules[1]@ == "No network access"@,
            policy.rules[2]@ == "No system commands"@,
    {
        let mut rules: Vec<String> = Vec::new();
        rules.push(String::from_str("No file system writes"));
        rules.push(String::from_str("No network access"));
        rules.push(String::from_str("No system commands"));
        SafetyPolicy { rules }
    }

    /// Accepts a plan all of whose safety checks passed, and refuses any
    /// other plan with the kind of its first failed check.
    pub fn validate(&self, plan: &CommandPlan) -> (result: Result<(), SafetyViolation>)
        ensures
            result is Ok <==> all_passed(plan.safety_checks@),
            result matches Err(violation) ==> exists|i: int|
                0 <= i < plan.safety_checks.len() && !(#[trigger] plan.safety_checks[i]).passed
                    && violation.check_type@ == plan.safety_checks[i].check_type@ && forall|j: int|
                    0 <= j < i ==> (#[trigger] plan.safety_checks[j]).passed,
    {
        let mut i: usize = 0;
        while i < plan.safety_checks.len()
            invariant
                i <= plan.safety_checks.len(),
                forall|j: int| 0 <= j < i ==> (#[trigger] plan.safety_checks[j]).passed,
            decreases plan.safety_checks.len() - i,
        {
            if !plan.safety_checks[i].passed {
                return Err(SafetyViolation { check_type: plan.safety_checks[i].check_type.clone() });
            }
            i += 1;
        }
        Ok(())
    }
}

} // verus!
