//! The KEEL error taxonomy: typed errors with stable codes.

use vstd::prelude::*;
use crate::text::push_str;

verus! {

/// Every fallible operation of the library fails with one of these kinds, carrying a message.
#[derive(Clone, Debug)]
pub enum KeelError {
    /// No tier clears the bar within budget.
    RouteNoTier(String),
    /// Provider/server down or out of memory.
    TierUnavailable(String),
    /// Output failed an oracle.
    OracleFail(String),
    /// Tests and code agree, a golden disagrees.
    JointWrong(String),
    /// Task cost cap hit (the hard stop).
    BudgetExceeded(String),
    /// All tiers failed the oracle.
    EscalationExhausted(String),
    /// Undo cost cannot be stated in one sentence.
    ReversibilityBlock(String),
    /// A claim cannot be grounded in ground truth.
    InsufficientSource(String),
    /// A sense returned below its confidence floor.
    PerceptLowConfidence(String),
    /// No inference layer found or launchable.
    SubstrateUnresolved(String),
    /// Constrained decoding produced invalid output.
    GrammarViolation(String),
    /// Anything else, carried with a message.
    Other(String),
}

/// The stable code of each error kind.
pub open spec fn spec_code(e: KeelError) -> Seq<char> {
    match e {
        KeelError::RouteNoTier(_) => "ROUTE_NO_TIER"@,
        KeelError::TierUnavailable(_) => "TIER_UNAVAILABLE"@,
        KeelError::OracleFail(_) => "ORACLE_FAIL"@,
        KeelError::JointWrong(_) => "JOINT_WRONG"@,
        KeelError::BudgetExceeded(_) => "BUDGET_EXCEEDED"@,
        KeelError::EscalationExhausted(_) => "ESCALATION_EXHAUSTED"@,
        KeelError::ReversibilityBlock(_) => "REVERSIBILITY_BLOCK"@,
        KeelError::InsufficientSource(_) => "INSUFFICIENT_SOURCE"@,
        KeelError::PerceptLowConfidence(_) => "PERCEPT_LOW_CONFIDENCE"@,
        KeelError::SubstrateUnresolved(_) => "SUBSTRATE_UNRESOLVED"@,
        KeelError::GrammarViolation(_) => "GRAMMAR_VIOLATION"@,
        KeelError::Other(_) => "KEEL_ERROR"@,
    }
}

/// The message an error carries.
pub open spec fn spec_message(e: KeelError) -> Seq<char> {
    match e {
        KeelError::RouteNoTier(s) => s@,
        KeelError::TierUnavailable(s) => s@,
        KeelError::OracleFail(s) => s@,
        KeelError::JointWrong(s) => s@,
        KeelError::BudgetExceeded(s) => s@,
        KeelError::EscalationExhausted(s) => s@,
        KeelError::ReversibilityBlock(s) => s@,
        KeelError::InsufficientSource(s) => s@,
        KeelError::PerceptLowConfidence(s) => s@,
        KeelError::SubstrateUnresolved(s) => s@,
        KeelError::GrammarViolation(s) => s@,
        KeelError::Other(s) => s@,
    }
}

impl KeelError {
    /// The stable code string of this error's kind.
    pub fn code(&self) -> (r: &'static str)
        ensures
            r@ == spec_code(*self),
    {
        match self {
            KeelError::RouteNoTier(_) => "ROUTE_NO_TIER",
            KeelError::TierUnavailable(_) => "TIER_UNAVAILABLE",
            KeelError::OracleFail(_) => "ORACLE_FAIL",
            KeelError::JointWrong(_) => "JOINT_WRONG",
            KeelError::BudgetExceeded(_) => "BUDGET_EXCEEDED",
            KeelError::EscalationExhausted(_) => "ESCALATION_EXHAUSTED",
            KeelError::ReversibilityBlock(_) => "REVERSIBILITY_BLOCK",
            KeelError::InsufficientSource(_) => "INSUFFICIENT_SOURCE",
            KeelError::PerceptLowConfidence(_) => "PERCEPT_LOW_CONFIDENCE",
            KeelError::SubstrateUnresolved(_) => "SUBSTRATE_UNRESOLVED",
            KeelError::GrammarViolation(_) => "GRAMMAR_VIOLATION",
            KeelError::Other(_) => "KEEL_ERROR",
        }
    }

    /// The carried human-readable message.
    pub fn message(&self) -> (r: &str)
        ensures
            r@ == spec_message(*self),
    {
        match self {
            KeelError::RouteNoTier(s) => s.as_str(),
            KeelError::TierUnavailable(s) => s.as_str(),
            KeelError::OracleFail(s) => s.as_str(),
            KeelError::JointWrong(s) => s.as_str(),
            KeelError::BudgetExceeded(s) => s.as_str(),
            KeelError::EscalationExhausted(s) => s.as_str(),
            KeelError::ReversibilityBlock(s) => s.as_str(),
            KeelError::InsufficientSource(s) => s.as_str(),
            KeelError::PerceptLowConfidence(s) => s.as_str(),
            KeelError::SubstrateUnresolved(s) => s.as_str(),
            KeelError::GrammarViolation(s) => s.as_str(),
            KeelError::Other(s) => s.as_str(),
        }
    }

    /// The error as shown to an operator: `[CODE] message`.
    pub fn text(&self) -> (r: String)
        ensures
            r@ == "["@ + spec_code(*self) + "] "@ + spec_message(*self),
    {
        let mut r = String::from_str("[");
        push_str(&mut r, self.code());
        push_str(&mut r, "] ");
        push_str(&mut r, self.message());
        r
    }
}

} // verus!
