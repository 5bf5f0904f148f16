use magictree::config::{BuildMode, Config, ReconcileMode};

#[test]
fn a_config_without_a_build_key_builds() {
    // The key is optional, and an existing config written before it existed has to keep loading
    // with the default.
    let config = Config::parse("port_stride = 10").expect("parse");
    assert_eq!(config.build, BuildMode::Always);
    assert_eq!(config.port_stride, 10);
}

#[test]
fn a_build_mode_is_named_in_lowercase() {
    let config = Config::parse(r#"build = "never""#).expect("parse");
    assert_eq!(config.build, BuildMode::Never);
    let config = Config::parse(r#"build = "ask""#).expect("parse");
    assert_eq!(config.build, BuildMode::Ask);
    assert!(Config::parse(r#"build = "sometimes""#).is_none());
}

#[test]
fn a_config_without_a_reconcile_key_always_reconciles() {
    let config = Config::parse("port_stride = 10").expect("parse");
    assert_eq!(config.reconcile, ReconcileMode::Always);
}

#[test]
fn a_reconcile_mode_is_named_in_lowercase() {
    let config = Config::parse(r#"reconcile = "auto""#).expect("parse");
    assert_eq!(config.reconcile, ReconcileMode::Auto);
    assert!(Config::parse(r#"reconcile = "sometimes""#).is_none());
}

#[test]
fn every_key_has_a_default() {
    let config = Config::load(&None, "config.toml").expect("load");
    assert_eq!(config, Config::default());
    assert_eq!((config.port_range_start, config.port_range_end, config.port_stride), (20000, 32767, 20));
    assert_eq!((config.stop_timeout_secs, config.health_timeout_secs), (10, 60));
    assert!(config.sync && config.check_for_updates);
    assert_eq!(config.slots(), 638);
}

#[test]
fn a_config_that_cannot_work_is_refused() {
    assert_eq!(
        Config::load(&Some("port_stride = 0".to_string()), "config.toml"),
        Err("config: port_stride must be greater than zero".to_string())
    );
    assert_eq!(
        Config::load(&Some("port_range_start = 40000".to_string()), "config.toml"),
        Err("config: port_range_start must be less than port_range_end".to_string())
    );
    assert_eq!(
        Config::load(&Some("port_stride = ".to_string()), "config.toml"),
        Err("parsing config.toml".to_string())
    );
}

#[test]
fn a_key_of_another_type_is_refused() {
    for raw in [
        "port_stride = 20.0",
        "port_stride = 1e3",
        "port_stride = -1",
        "port_stride = \"20\"",
        "stop_timeout_secs = 1979-05-27",
        "sync = 1",
        "build = [\"never\"]",
    ] {
        assert!(Config::parse(raw).is_none(), "{raw}");
    }
    assert_eq!(Config::parse("port_stride = 0x10").expect("parse").port_stride, 16);
}
