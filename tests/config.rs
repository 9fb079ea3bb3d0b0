use cashflow::cli::{Cli, Commands, DEFAULT_PLAN_DAYS};
use cashflow::config::{default_data_dir, effective_data_dir, CashflowConfig};

#[test]
fn test_default_config() {
    let config = CashflowConfig::default();
    assert_eq!(config.data_dir, "./dev-data");
}

#[test]
fn environment_override_wins() {
    assert_eq!(
        default_data_dir(Some("/srv/cash".to_string()), Some("/home/a/.cashflow".to_string()), true),
        Some("/srv/cash".to_string())
    );
    assert_eq!(
        default_data_dir(None, Some("/home/a/.cashflow".to_string()), true),
        Some("./dev-data".to_string())
    );
    assert_eq!(
        default_data_dir(None, Some("/home/a/.cashflow".to_string()), false),
        Some("/home/a/.cashflow".to_string())
    );
    assert_eq!(default_data_dir(None, None, false), None);
    let config = CashflowConfig { data_dir: "/data".to_string() };
    assert_eq!(effective_data_dir(None, config.clone()), "/data");
    assert_eq!(effective_data_dir(Some("/env".to_string()), config), "/env");
}

#[test]
fn no_command_shows_a_default_plan() {
    assert_eq!(Cli { command: None }.plan_request(), Some((DEFAULT_PLAN_DAYS, false)));
    assert_eq!(DEFAULT_PLAN_DAYS, 30);
    let cli = Cli { command: Some(Commands::Plan { days: 7, past: true }) };
    assert_eq!(cli.plan_request(), Some((7, true)));
    let cli = Cli { command: Some(Commands::Export { format: "json".to_string() }) };
    assert_eq!(cli.plan_request(), None);
}
