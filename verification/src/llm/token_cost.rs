//! Budget alerts for token spending.

use vstd::prelude::*;

verus! {

/// How far spending has gone into a budget.
#[derive(Debug, Clone, Copy, PartialEq, Eq, Structural)]
pub enum BudgetAlertLevel {
    /// Most of the budget is used.
    Warning,
    /// Nearly all of it is used.
    Critical,
    /// The budget is exceeded.
    Exceeded,
}

impl BudgetAlertLevel {
    /// The level's name.
    pub fn name(&self) -> (r: &'static str)
        ensures
            r@ == match *self {
                BudgetAlertLevel::Warning => "warning"@,
                BudgetAlertLevel::Critical => "critical"@,
                BudgetAlertLevel::Exceeded => "exceeded"@,
            },
    {
        match self {
            BudgetAlertLevel::Warning => "warning",
            BudgetAlertLevel::Critical => "critical",
            BudgetAlertLevel::Exceeded => "exceeded",
        }
    }
}

/// Writes budget alerts to the log.
#[derive(Debug, Clone, Copy)]
pub struct LogAlertHandler;

impl LogAlertHandler {
    /// An alert at this level goes to the error log (else to the warning log):
    /// critical and exceeded alerts do.
    pub fn logs_as_error(&self, level: BudgetAlertLevel) -> (r: bool)
        ensures
            r == (level != BudgetAlertLevel::Warning),
    {
        match level {
            BudgetAlertLevel::Warning => false,
            _ => true,
        }
    }
}

} // verus!
