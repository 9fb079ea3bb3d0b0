//! Where the ledger is kept.
use vstd::prelude::*;
use vstd::string::*;

verus! {

/// The configuration: the directory that holds the ledger file.
#[derive(Clone, Debug, PartialEq)]
pub struct CashflowConfig {
    pub data_dir: String,
}

impl Default for CashflowConfig {
    /// The development default: a `dev-data` directory beside the program.
    fn default() -> (r: CashflowConfig)
        ensures
            r.data_dir@ == "./dev-data"@,
    {
        CashflowConfig { data_dir: String::from_str("./dev-data") }
    }
}

/// The data directory to use by default: the override from the environment
/// when there is one; else the development directory in development builds;
/// else the `.cashflow` directory under the home directory, `None` when
/// there is no home directory.
pub fn default_data_dir(
    env_override: Option<String>,
    home_data_dir: Option<String>,
    development: bool,
) -> (r: Option<String>)
    ensures
        env_override matches Some(d) ==> r == Some(d),
        env_override is None && development ==> (r matches Some(d) && d@ == "./dev-data"@),
        env_override is None && !development ==> r == home_data_dir,
{
    match env_override {
        Some(d) => Some(d),
        None => if development {
            Some(CashflowConfig::default().data_dir)
        } else {
            home_data_dir
        },
    }
}

/// The data directory in effect: the environment's override, else the
/// configured one.
pub fn effective_data_dir(env_override: Option<String>, config: CashflowConfig) -> (r: String)
    ensures
        env_override matches Some(d) ==> r == d,
        env_override is None ==> r == config.data_dir,
{
    match env_override {
        Some(d) => d,
        None => config.data_dir,
    }
}

} // verus!
