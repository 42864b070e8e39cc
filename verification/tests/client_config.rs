use pubky_auth::client::{PubkyClientBuilder, Settings, Testnet};

#[test]
fn builder_defaults() {
    let builder = PubkyClientBuilder::default();
    assert!(builder.settings.bootstrap.is_empty());
    assert!(builder.settings.resolvers.is_empty());
    assert_eq!(builder.settings.request_timeout_ms, 2000);
}

#[test]
fn testnet_sets_bootstrap_and_resolvers() {
    let testnet = Testnet {
        bootstrap: vec!["localhost:6881".to_string()],
        nodes: vec![],
    };
    let builder = PubkyClientBuilder::default().testnet(&testnet);
    assert_eq!(builder.settings.bootstrap, vec!["localhost:6881".to_string()]);
    assert_eq!(builder.settings.resolvers, vec!["localhost:6881".to_string()]);
}

#[test]
fn dht_request_timeout_overrides_default() {
    let builder = PubkyClientBuilder::default().dht_request_timeout(500);
    assert_eq!(builder.settings.request_timeout_ms, 500);
}

#[test]
fn pkarr_settings_replaces_everything() {
    let settings = Settings {
        bootstrap: vec!["a:1".to_string()],
        resolvers: vec!["b:2".to_string()],
        request_timeout_ms: 123,
    };
    let builder = PubkyClientBuilder::default().pkarr_settings(settings);
    assert_eq!(builder.settings.bootstrap, vec!["a:1".to_string()]);
    assert_eq!(builder.settings.resolvers, vec!["b:2".to_string()]);
    assert_eq!(builder.settings.request_timeout_ms, 123);
}
