use ikrelln::config::{
    merge_configs, CleanUpConfig, CleanUpConfigLoader, Config, ConfigLoader, ConfigLoaderCmd,
};

fn no_args() -> ConfigLoaderCmd {
    ConfigLoaderCmd { host: None, port: None, db_url: None }
}

#[test]
fn the_command_line_wins_over_the_file() {
    let args = ConfigLoaderCmd {
        host: Some("1.2.3.4".to_string()),
        port: None,
        db_url: Some("from args".to_string()),
    };
    let file = ConfigLoader {
        host: Some("file host".to_string()),
        port: Some(99),
        db_nb_connection: Some(5),
        db_url: Some("from file".to_string()),
        cleanup: Some(CleanUpConfigLoader {
            delay_test_results: Some(1),
            delay_spans: None,
            delay_reports: Some(3),
            schedule: None,
        }),
    };
    let config = merge_configs(args, file).unwrap();
    assert_eq!(config.host, "1.2.3.4");
    assert_eq!(config.port, 99);
    assert_eq!(config.db_url, "from args");
    assert_eq!(
        config.cleanup,
        CleanUpConfig {
            delay_test_results: 1,
            delay_spans: 604_800_000,
            delay_reports: 3,
            schedule: 3_600_000,
        }
    );
}

#[test]
fn defaults_fill_what_nobody_sets() {
    let mut file = ConfigLoader::default();
    file.db_url = Some("db".to_string());
    let config = Config::load(no_args(), file);
    assert_eq!(config.host, "0.0.0.0");
    assert_eq!(config.port, 7878);
    assert_eq!(config.db_url, "db");
    assert_eq!(config.cleanup, CleanUpConfig::default());
    assert_eq!(config.clone().db_url, "db");

    let default = Config::default();
    assert_eq!(default.host, "0.0.0.0");
    assert_eq!(default.port, 7878);
    assert_eq!(default.db_url, "127.0.0.1:5042");
    assert_eq!(CleanUpConfigLoader::default().schedule, None);
}

#[test]
fn the_database_url_has_to_be_given() {
    let err = merge_configs(no_args(), ConfigLoader::default()).unwrap_err();
    assert_eq!(err, "missing DATABASE_URL parameter");
    let mut args = no_args();
    args.port = Some(1);
    args.host = Some("h".to_string());
    assert!(merge_configs(args, ConfigLoader::default()).is_err());
}
