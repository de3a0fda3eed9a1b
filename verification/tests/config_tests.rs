use moesif_wasm::config::{
    get_sampling_percentage, AppConfigResponse, EnvConfig,
};
use moesif_wasm::http_callback::{Handler, HttpCallbackManager};

#[test]
fn missing_application_id_is_rejected() {
    let r = EnvConfig::from_options(None, None, None, None, None, None, None, None, None);
    assert!(r.is_none());
}

#[test]
fn absent_fields_take_their_defaults() {
    let env = EnvConfig::from_options(
        Some("abc".to_string()),
        None,
        None,
        None,
        None,
        None,
        None,
        None,
        None,
    )
    .unwrap();
    assert_eq!(env.moesif_application_id, "abc");
    assert_eq!(env.user_id_header, None);
    assert_eq!(env.company_id_header, None);
    assert_eq!(env.batch_max_size, 100);
    assert_eq!(env.batch_max_wait, 2000);
    assert_eq!(env.upstream, "moesif_api");
    assert_eq!(env.base_uri, "api.moesif.net");
    assert!(!env.debug);
    assert_eq!(env.connection_timeout, 5000);
}

#[test]
fn supplied_fields_are_kept() {
    let env = EnvConfig::from_options(
        Some("abc".to_string()),
        Some("x-user".to_string()),
        Some("x-company".to_string()),
        Some(2),
        Some(1000),
        Some("collector".to_string()),
        Some("example.net".to_string()),
        Some(true),
        Some(900),
    )
    .unwrap();
    assert_eq!(env.batch_max_size, 2);
    assert_eq!(env.batch_max_wait, 1000);
    assert_eq!(env.upstream, "collector");
    assert_eq!(env.base_uri, "example.net");
    assert!(env.debug);
    assert_eq!(env.connection_timeout, 900);
}

fn app_config() -> AppConfigResponse {
    let mut c = AppConfigResponse::new();
    c.user_sample_rate = vec![("alice".to_string(), 25)];
    c.company_sample_rate = vec![("acme".to_string(), 50)];
    c.sample_rate = 90;
    c
}

#[test]
fn fresh_app_config_samples_everything() {
    let c = AppConfigResponse::new();
    assert_eq!(c.sample_rate, 100);
    assert_eq!(c.get_sampling_percentage(None, None), 100);
    assert!(c.e_tag.is_none());
}

#[test]
fn user_rate_takes_precedence() {
    let c = app_config();
    assert_eq!(c.get_sampling_percentage(Some("alice"), Some("acme")), 25);
    assert_eq!(get_sampling_percentage(&c, Some("alice"), None), 25);
}

#[test]
fn company_rate_applies_when_user_is_unknown() {
    let c = app_config();
    assert_eq!(c.get_sampling_percentage(Some("bob"), Some("acme")), 50);
    assert_eq!(c.get_sampling_percentage(None, Some("acme")), 50);
}

#[test]
fn app_rate_is_the_fallback() {
    let c = app_config();
    assert_eq!(c.get_sampling_percentage(Some("bob"), Some("globex")), 90);
    assert_eq!(c.get_sampling_percentage(None, None), 90);
}

#[test]
fn handlers_are_delivered_at_most_once() {
    let mut manager = HttpCallbackManager::new();
    manager.register_handler(7, Handler::EventBatch);
    manager.register_handler(9, Handler::AppConfig);
    assert!(matches!(manager.handle_response(7), Some(Handler::EventBatch)));
    assert!(manager.handle_response(7).is_none());
    assert!(matches!(manager.handle_response(9), Some(Handler::AppConfig)));
    assert!(manager.handle_response(9).is_none());
}

#[test]
fn unmatched_token_is_not_fatal() {
    let mut manager = HttpCallbackManager::new();
    assert!(manager.handle_response(123).is_none());
    manager.register_handler(1, Handler::GovernanceRules);
    assert!(manager.handle_response(2).is_none());
    assert!(matches!(manager.handle_response(1), Some(Handler::GovernanceRules)));
}

#[test]
fn registering_again_replaces_the_pending_handler() {
    let mut manager = HttpCallbackManager::new();
    manager.register_handler(5, Handler::AppConfig);
    manager.register_handler(5, Handler::GovernanceRules);
    assert!(matches!(manager.handle_response(5), Some(Handler::GovernanceRules)));
    assert!(manager.handle_response(5).is_none());
}
