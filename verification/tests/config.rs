use perp_backend::config::{Config, ConfigError};

fn some(text: &str) -> Option<String> {
    Some(text.to_string())
}

#[test]
fn settings_take_their_defaults() {
    let config = Config::from_values(some("ws://node"), some("0xp"), some("0xt"), None, None, some("0xk"));
    assert_eq!(
        config,
        Ok(Config {
            rpc_url: "ws://node".to_string(),
            privacy_proxy_address: "0xp".to_string(),
            token_pool_address: "0xt".to_string(),
            db_path: "./db".to_string(),
            server_bind_address: "0.0.0.0:3000".to_string(),
            token_address: "0xk".to_string(),
        })
    );
    let config =
        Config::from_values(some("a"), some("b"), some("c"), some("/var/db"), some("[::]:80"), some("d"))
            .unwrap();
    assert_eq!(config.db_path, "/var/db");
    assert_eq!(config.server_bind_address, "[::]:80");
}

#[test]
fn the_first_missing_setting_is_reported() {
    assert_eq!(
        Config::from_values(None, None, None, None, None, None),
        Err(ConfigError::MissingRpcUrl)
    );
    assert_eq!(
        Config::from_values(some("a"), None, None, None, None, None),
        Err(ConfigError::MissingPrivacyProxyAddress)
    );
    assert_eq!(
        Config::from_values(some("a"), some("b"), None, None, None, some("d")),
        Err(ConfigError::MissingTokenPoolAddress)
    );
    assert_eq!(
        Config::from_values(some("a"), some("b"), some("c"), None, None, None),
        Err(ConfigError::MissingTokenAddress)
    );
}
