//! Tests of the metrics configuration: exporter-name validation (through
//! the real regex engine) and receiver defaulting.

use tx_relay::metrics::{Config, Exporter, Format, LogLevel, Target};

fn log_exporter(level: LogLevel, interval: u64) -> Exporter {
    Exporter {
        target: Target::Log { level, interval },
        format: Format::Yaml,
    }
}

#[test]
fn accepts_well_formed_exporter_names() {
    for name in ["prometheus", "log_json", "log-yaml-2", "A", "0", "_", "-"] {
        assert!(Config::check_exporter_name(name).is_ok(), "rejected {:?}", name);
    }
}

#[test]
fn rejects_empty_exporter_name() {
    assert!(Config::check_exporter_name("").is_err());
}

#[test]
fn rejects_exporter_names_with_foreign_characters() {
    for name in ["with space", "dot.ted", "sla/sh", "naïve", "quo\"te", "tab\tbed"] {
        assert!(Config::check_exporter_name(name).is_err(), "accepted {:?}", name);
    }
}

#[test]
fn rejection_messages_are_fixed_per_input() {
    assert_eq!(
        Config::check_exporter_name("").unwrap_err(),
        "the name of exporter shouldn't be empty"
    );
    assert_eq!(
        Config::check_exporter_name("a b!").unwrap_err(),
        "invalid exporter name \"a b!\", only \"0-9a-zA-Z_-\" are allowed"
    );
    // equal inputs give equal results, Err text included
    assert_eq!(Config::check_exporter_name("x y"), Config::check_exporter_name("x y"));
    assert_eq!(Config::check_exporter_name("ok_1"), Config::check_exporter_name("ok_1"));
}

#[test]
fn checks_every_configured_exporter_name() {
    let empty = Config::default();
    assert!(empty.check_exporter_names().is_ok());

    let mut config = Config::default();
    config.exporter.push(("prometheus".to_owned(), log_exporter(LogLevel::Warn, 600)));
    config.exporter.push(("log_json".to_owned(), log_exporter(LogLevel::Error, 900)));
    assert!(config.check_exporter_names().is_ok());

    config.exporter.push(("bad name".to_owned(), log_exporter(LogLevel::Info, 60)));
    assert!(config.check_exporter_names().is_err());
}

#[test]
fn service_is_off_without_exporters() {
    let mut config = Config::default();
    assert!(!config.has_exporters());
    config.exporter.push(("prometheus".to_owned(), log_exporter(LogLevel::Warn, 600)));
    assert!(config.has_exporters());
}

#[test]
fn receiver_timing_defaults_zeroed_fields() {
    let config = Config::default();
    let timing = config.receiver_timing();
    assert_eq!(timing.histogram_window_secs, 10);
    assert_eq!(timing.histogram_granularity_secs, 1);
    assert_eq!(timing.upkeep_interval_millis, 50);
    assert_eq!(config.runtime_threads(), 2);
}

#[test]
fn receiver_timing_keeps_configured_values() {
    let mut config = Config::default();
    config.threads = 3;
    config.histogram_window = 60;
    config.histogram_granularity = 1;
    config.upkeep_interval = 500;
    let timing = config.receiver_timing();
    assert_eq!(timing.histogram_window_secs, 60);
    assert_eq!(timing.histogram_granularity_secs, 1);
    assert_eq!(timing.upkeep_interval_millis, 500);
    assert_eq!(config.runtime_threads(), 3);
}

#[test]
fn chain_spec_constants() {
    assert_eq!(tx_relay::hardfork::CHAIN_SPEC_NAME, "ckb_testnet");
    assert_eq!(tx_relay::hardfork::CKB2021_START_EPOCH, u64::MAX);
}
