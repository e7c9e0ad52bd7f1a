use goose::provider::{
    backoff_ms, bearer_header, classify_http_status, load_retry_config, should_retry,
    DatabricksAuth, ProviderError, RetryConfig,
};

#[test]
fn context_overflow_is_classified_from_the_body() {
    let e = classify_http_status(400, Some("Prompt is too long for this model".to_string()));
    match e {
        ProviderError::ContextLengthExceeded(m) => {
            assert_eq!(m, "Prompt is too long for this model")
        },
        other => panic!("expected a context overflow, got {:?}", other),
    }
    // Case-insensitive, and the other marker too.
    assert!(matches!(
        classify_http_status(400, Some("TOO MANY tokens".to_string())),
        ProviderError::ContextLengthExceeded(_)
    ));
    // A plain bad request is not an overflow.
    assert!(matches!(
        classify_http_status(400, Some("malformed payload".to_string())),
        ProviderError::RequestFailed(_)
    ));
    assert!(matches!(classify_http_status(400, None), ProviderError::RequestFailed(_)));
}

#[test]
fn status_taxonomy() {
    assert_eq!(
        classify_http_status(401, Some("bad key".to_string())),
        ProviderError::Authentication("bad key".to_string())
    );
    assert!(matches!(classify_http_status(403, None), ProviderError::Authentication(_)));
    assert_eq!(
        classify_http_status(429, Some("slow down".to_string())),
        ProviderError::RateLimited("slow down".to_string())
    );
    assert_eq!(
        classify_http_status(500, Some("oops".to_string())),
        ProviderError::ServerError("oops".to_string())
    );
    assert!(matches!(classify_http_status(503, None), ProviderError::ServerError(_)));
    assert_eq!(
        classify_http_status(404, Some("missing".to_string())),
        ProviderError::RequestFailed("missing".to_string())
    );
}

#[test]
fn retry_policy_backs_off_exponentially_to_the_cap() {
    let c = RetryConfig {
        max_retries: 5,
        initial_interval_ms: 1000,
        backoff_multiplier: 2,
        max_interval_ms: 5000,
    };
    assert_eq!(backoff_ms(&c, 0), 1000);
    assert_eq!(backoff_ms(&c, 1), 2000);
    assert_eq!(backoff_ms(&c, 2), 4000);
    assert_eq!(backoff_ms(&c, 3), 5000);
    assert_eq!(backoff_ms(&c, 4), 5000);
    assert_eq!(backoff_ms(&c, 63), 5000);
}

#[test]
fn retry_only_transient_failures_within_budget() {
    let c = RetryConfig::default();
    assert_eq!(c.max_retries, 3);
    let rate = ProviderError::RateLimited("slow down".to_string());
    let server = ProviderError::ServerError("oops".to_string());
    let auth = ProviderError::Authentication("bad key".to_string());
    let cle = ProviderError::ContextLengthExceeded("too long".to_string());
    let failed = ProviderError::RequestFailed("bad".to_string());
    assert!(should_retry(&c, &rate, 0));
    assert!(should_retry(&c, &server, 2));
    assert!(!should_retry(&c, &rate, 3));
    assert!(!should_retry(&c, &auth, 0));
    assert!(!should_retry(&c, &cle, 0));
    assert!(!should_retry(&c, &failed, 0));
}

#[test]
fn retry_config_reads_parameters_and_falls_back() {
    let c = load_retry_config(
        Some("7".to_string()),
        Some("250".to_string()),
        Some("3".to_string()),
        Some("9000".to_string()),
    );
    assert_eq!(c.max_retries, 7);
    assert_eq!(c.initial_interval_ms, 250);
    assert_eq!(c.backoff_multiplier, 3);
    assert_eq!(c.max_interval_ms, 9000);

    let d = load_retry_config(None, Some("not a number".to_string()), Some("".to_string()), None);
    assert_eq!(d.max_retries, 3);
    assert_eq!(d.initial_interval_ms, 1000);
    assert_eq!(d.backoff_multiplier, 2);
    assert_eq!(d.max_interval_ms, 32000);
}

#[test]
fn databricks_auth_constructors() {
    match DatabricksAuth::oauth("https://dbc.example".to_string()) {
        DatabricksAuth::OAuth { host, client_id, redirect_url, scopes } => {
            assert_eq!(host, "https://dbc.example");
            assert_eq!(client_id, "databricks-cli");
            assert_eq!(redirect_url, "http://localhost:8020");
            assert_eq!(scopes, vec!["all-apis".to_string(), "offline_access".to_string()]);
        },
        other => panic!("expected an OAuth configuration, got {:?}", other),
    }
    let t = DatabricksAuth::token("SECRET-REDACTED".to_string());
    assert_eq!(
        t.ready_auth_header(),
        Some("Bearer SECRET-REDACTED".to_string())
    );
    let o = DatabricksAuth::oauth("https://dbc.example".to_string());
    assert_eq!(o.ready_auth_header(), None);
    assert_eq!(bearer_header("abc"), "Bearer abc");
}
