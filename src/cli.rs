//! The commands the program accepts, as plain values.
use vstd::prelude::*;

verus! {

/// Horizon of the plan shown when no command is given.
pub const DEFAULT_PLAN_DAYS: i64 = 30;

/// A parsed command line.
pub struct Cli {
    pub command: Option<Commands>,
}

#[allow(inconsistent_fields)]
pub enum Commands {
    /// Show the cashflow projection for the next `days` days.
    Plan { days: i64, past: bool },
    /// Manage the account balance.
    Balance { action: BalanceAction },
    /// Manage recurring transactions.
    Recurring { action: RecurringAction },
    /// Manage one-time transactions.
    OneTime { action: OneTimeAction },
    /// Export the ledger as "json" or "csv".
    Export { format: String },
    /// Manage the configuration.
    Config { action: ConfigAction },
}

pub enum ConfigAction {
    Show,
    SetDataDir { path: String },
}

pub enum BalanceAction {
    /// Set the balance on a date (DD.MM.YYYY or YYYY-MM-DD), today by default.
    SetBalance { amount: String, date: Option<String> },
    Show,
}

#[allow(inconsistent_fields)]
pub enum RecurringAction {
    Add { description: String, amount: String, day: u8 },
    List,
    Edit { id: String, amount: Option<String>, day: Option<u8>, description: Option<String> },
    Disable { id: String },
    Enable { id: String },
    Delete { id: String },
}

#[allow(inconsistent_fields)]
pub enum OneTimeAction {
    Add { description: String, amount: String, date: String },
    List { upcoming: bool },
    Edit { id: String, amount: Option<String>, date: Option<String>, description: Option<String> },
    Delete { id: String },
}

impl Cli {
    /// The plan to show, as horizon in days and whether to show past rows:
    /// the requested one, or a plan of `DEFAULT_PLAN_DAYS` days when no
    /// command was given; `None` for every other command.
    pub fn plan_request(&self) -> (r: Option<(i64, bool)>)
        ensures
            self.command is None ==> r == Some((DEFAULT_PLAN_DAYS, false)),
            self.command matches Some(Commands::Plan { days, past }) ==> r == Some((days, past)),
            self.command matches Some(c) && !(c is Plan) ==> r is None,
    {
        match &self.command {
            None => Some((DEFAULT_PLAN_DAYS, false)),
            Some(Commands::Plan { days, past }) => Some((*days, *past)),
            Some(_) => None,
        }
    }
}

} // verus!
