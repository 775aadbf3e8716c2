use sni_proxy::config::{
    parse_socket_addr, IpTrafficTrackingConfig, LogConfigFile, Socks5FileConfig,
};
use sni_proxy::{validate_config, Config, ConfigError, IpAddr};

fn base_config() -> Config {
    Config {
        listen_addr: "0.0.0.0:8443".to_string(),
        whitelist: vec!["example.com".to_string()],
        socks5_whitelist: vec![],
        ip_whitelist: vec![],
        ip_traffic_tracking: None,
        socks5: None,
        log: None,
    }
}

fn base_log() -> LogConfigFile {
    LogConfigFile {
        level: "info".to_string(),
        output: "stdout".to_string(),
        file_path: None,
        enable_rotation: false,
        max_size_mb: 100,
        max_backups: 5,
        show_timestamp: true,
        show_module: true,
        use_color: true,
    }
}

#[test]
fn socket_addresses_parse() {
    let a = parse_socket_addr("127.0.0.1:8443").unwrap();
    assert_eq!(a.ip, IpAddr::parse("127.0.0.1").unwrap());
    assert_eq!(a.port, 8443);

    let a = parse_socket_addr("[::1]:1080").unwrap();
    assert_eq!(a.ip, IpAddr::parse("::1").unwrap());
    assert_eq!(a.port, 1080);

    assert!(parse_socket_addr("127.0.0.1").is_none());
    assert!(parse_socket_addr("127.0.0.1:").is_none());
    assert!(parse_socket_addr("127.0.0.1:70000").is_none());
    assert!(parse_socket_addr("nonsense:80").is_none());
}

#[test]
fn a_sound_configuration_passes() {
    assert_eq!(validate_config(&base_config()), Ok(()));
}

#[test]
fn listen_address_must_parse() {
    let mut c = base_config();
    c.listen_addr = "not-an-address".to_string();
    assert_eq!(validate_config(&c), Err(ConfigError::InvalidListenAddr));
}

#[test]
fn some_whitelist_must_be_present() {
    let mut c = base_config();
    c.whitelist = vec![];
    assert_eq!(validate_config(&c), Err(ConfigError::EmptyWhitelists));

    // a SOCKS5 whitelist alone is enough
    c.socks5_whitelist = vec!["example.com".to_string()];
    assert_eq!(validate_config(&c), Ok(()));
}

#[test]
fn socks5_address_and_credentials_are_checked() {
    let mut c = base_config();
    c.socks5 = Some(Socks5FileConfig {
        addr: "bad".to_string(),
        username: None,
        password: None,
    });
    assert_eq!(validate_config(&c), Err(ConfigError::InvalidSocks5Addr));

    c.socks5 = Some(Socks5FileConfig {
        addr: "10.0.0.5:1080".to_string(),
        username: Some("u".to_string()),
        password: None,
    });
    assert_eq!(validate_config(&c), Err(ConfigError::Socks5CredsInconsistent));

    c.socks5 = Some(Socks5FileConfig {
        addr: "10.0.0.5:1080".to_string(),
        username: Some("u".to_string()),
        password: Some("p".to_string()),
    });
    assert_eq!(validate_config(&c), Ok(()));
}

#[test]
fn tracking_needs_a_capacity() {
    let mut c = base_config();
    c.ip_traffic_tracking = Some(IpTrafficTrackingConfig {
        enabled: true,
        max_tracked_ips: 0,
        output_file: None,
        persistence_file: None,
    });
    assert_eq!(validate_config(&c), Err(ConfigError::TrackingCapacityZero));

    c.ip_traffic_tracking = Some(IpTrafficTrackingConfig {
        enabled: false,
        max_tracked_ips: 0,
        output_file: None,
        persistence_file: None,
    });
    assert_eq!(validate_config(&c), Ok(()));
}

#[test]
fn log_settings_are_checked() {
    let mut c = base_config();
    let mut l = base_log();
    l.level = "noisy".to_string();
    c.log = Some(l);
    assert_eq!(validate_config(&c), Err(ConfigError::InvalidLogLevel));

    let mut l = base_log();
    l.output = "pipe".to_string();
    c.log = Some(l);
    assert_eq!(validate_config(&c), Err(ConfigError::InvalidLogOutput));

    let mut l = base_log();
    l.enable_rotation = true;
    l.max_size_mb = 0;
    c.log = Some(l);
    assert_eq!(validate_config(&c), Err(ConfigError::RotationSizeZero));

    c.log = Some(base_log());
    assert_eq!(validate_config(&c), Ok(()));
}
