use typthon::logging::{dev_log_config, prod_log_config, LogConfig, LogFormat, LogLevel, LogOutput};

#[test]
fn test_config_builder() {
    let config = LogConfig::new()
        .with_level(LogLevel::Debug)
        .with_format(LogFormat::Json)
        .with_span_events(true)
        .with_filter("typthon=trace");

    assert_eq!(config.level, LogLevel::Debug);
    assert_eq!(config.format, LogFormat::Json);
    assert_eq!(config.span_events, true);
    assert_eq!(config.filter, Some("typthon=trace".to_string()));
}

#[test]
fn default_and_preset_configs() {
    let d = LogConfig::default();
    assert_eq!(d.level, LogLevel::Info);
    assert_eq!(d.format, LogFormat::Pretty);
    assert!(matches!(d.output, LogOutput::Stderr));
    assert!(!d.span_events);
    assert_eq!(d.filter, None);
    let dev = dev_log_config();
    assert_eq!(dev.level, LogLevel::Debug);
    assert_eq!(dev.filter, Some("typthon=debug".to_string()));
    let prod = prod_log_config("/var/log/t");
    assert_eq!(prod.format, LogFormat::Json);
    match prod.output {
        LogOutput::File { directory, prefix } => {
            assert_eq!(directory, "/var/log/t");
            assert_eq!(prefix, "typthon");
        }
        _ => panic!("expected file output"),
    }
    let out = LogConfig::new().with_output(LogOutput::Stdout);
    assert!(matches!(out.output, LogOutput::Stdout));
}
