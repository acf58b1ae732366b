//! Login initiation, the exchange state machine and identity resolution.

use authsec::claims::validate_token;
use authsec::exchange::{
    error_status, exchange_step, initiate_login, userinfo_url_for, ExchangeError, ExchangeEvent,
    ExchangeState,
};
use authsec::identity::{resolve_subject, UserInfo};
use authsec::registry::{ProviderConfig, ProviderRegistry};

const SECRET: &[u8] = b"flow-test-secret";
const NOW: usize = 1_700_000_000;

fn config(id: &str, auth: &str) -> ProviderConfig {
    ProviderConfig {
        provider_id: id.to_string(),
        authorization_endpoint: auth.to_string(),
        token_endpoint: format!("https://{id}.example/token"),
        userinfo_endpoint: format!("https://{id}.example/userinfo"),
        client_id: format!("{id}-client"),
        client_secret: format!("{id}-client-secret"),
        redirect_uri: format!("http://127.0.0.1:3000/auth/callback/{id}"),
    }
}

fn registry() -> ProviderRegistry {
    ProviderRegistry {
        providers: vec![
            config("google", "https://accounts.google.com/o/oauth2/auth"),
            config("github", "https://github.com/login/oauth/authorize"),
            config("amazon", "https://www.amazon.com/ap/oa"),
        ],
    }
}

fn profile(email: Option<&str>, login: Option<&str>, name: Option<&str>, sub: Option<&str>, id: Option<u64>) -> UserInfo {
    UserInfo {
        sub: sub.map(|s| s.to_string()),
        email: email.map(|s| s.to_string()),
        id,
        login: login.map(|s| s.to_string()),
        name: name.map(|s| s.to_string()),
    }
}

#[test]
fn initiate_login_redirects_to_each_provider() {
    let reg = registry();
    for c in &reg.providers {
        let url = initiate_login(&reg, &c.provider_id, "st4te").expect("configured id succeeds");
        assert!(
            url.starts_with(&c.authorization_endpoint),
            "redirect for {} does not target its endpoint: {url}",
            c.provider_id
        );
        assert!(url.contains("scope=openid%20email%20profile"), "scopes missing: {url}");
        assert!(url.contains("response_type=code"));
        assert!(url.contains(&format!("client_id={}-client", c.provider_id)));
        assert!(url.contains("state=st4te"));
    }
}

#[test]
fn initiate_login_unknown_provider() {
    let reg = registry();
    let r = initiate_login(&reg, "gitlab", "s");
    assert!(matches!(r, Err(ExchangeError::UnknownProvider)));
    assert_eq!(error_status(&ExchangeError::UnknownProvider), 400);
}

#[test]
fn exchange_happy_path() {
    let reg = registry();
    let s = ExchangeState::Init;
    let s = exchange_step(&reg, SECRET, NOW, s, ExchangeEvent::Begin {
        provider_id: "google".to_string(),
    });
    assert!(matches!(&s, ExchangeState::ProviderResolved { .. }));
    let s = exchange_step(&reg, SECRET, NOW, s, ExchangeEvent::TokenResult {
        access_token: Some("at-123".to_string()),
    });
    assert!(matches!(&s, ExchangeState::CodeExchanged { .. }));
    let s = exchange_step(&reg, SECRET, NOW, s, ExchangeEvent::ProfileResult {
        status: 200,
        profile: Some(profile(Some("bob@example.com"), None, None, None, None)),
    });
    assert!(matches!(&s, ExchangeState::ProfileFetched { .. }));
    let s = exchange_step(&reg, SECRET, NOW, s, ExchangeEvent::Advance);
    match &s {
        ExchangeState::SubjectResolved { subject, .. } => assert_eq!(subject, "bob@example.com"),
        other => panic!("expected a resolved subject, got {other:?}"),
    }
    let s = exchange_step(&reg, SECRET, NOW, s, ExchangeEvent::Advance);
    let token = match s {
        ExchangeState::TokenIssued { token } => token,
        other => panic!("expected an issued token, got {other:?}"),
    };
    let claims = validate_token(SECRET, &token, NOW).expect("issued token validates");
    assert_eq!(claims.sub, "bob@example.com");
    assert_eq!(claims.provider, "google");
    assert_eq!(claims.exp, NOW + 3600);
}

#[test]
fn exchange_fails_terminally() {
    let reg = registry();
    let s = exchange_step(&reg, SECRET, NOW, ExchangeState::Init, ExchangeEvent::Begin {
        provider_id: "gitlab".to_string(),
    });
    assert!(matches!(
        &s,
        ExchangeState::Failed { error: ExchangeError::UnknownProvider }
    ));
    // a failed state absorbs every further event
    let s = exchange_step(&reg, SECRET, NOW, s, ExchangeEvent::Advance);
    assert!(matches!(
        &s,
        ExchangeState::Failed { error: ExchangeError::UnknownProvider }
    ));
}

#[test]
fn exchange_upstream_failures() {
    let reg = registry();
    let resolved = exchange_step(&reg, SECRET, NOW, ExchangeState::Init, ExchangeEvent::Begin {
        provider_id: "github".to_string(),
    });
    let failed = exchange_step(&reg, SECRET, NOW, resolved.clone(), ExchangeEvent::TokenResult {
        access_token: None,
    });
    assert!(matches!(
        &failed,
        ExchangeState::Failed { error: ExchangeError::UpstreamExchangeError }
    ));
    let exchanged = exchange_step(&reg, SECRET, NOW, resolved, ExchangeEvent::TokenResult {
        access_token: Some("at".to_string()),
    });
    let bad_status = exchange_step(&reg, SECRET, NOW, exchanged.clone(), ExchangeEvent::ProfileResult {
        status: 503,
        profile: Some(profile(Some("x@y"), None, None, None, None)),
    });
    assert!(matches!(
        &bad_status,
        ExchangeState::Failed { error: ExchangeError::UpstreamProfileError(503) }
    ));
    let bad_body = exchange_step(&reg, SECRET, NOW, exchanged, ExchangeEvent::ProfileResult {
        status: 200,
        profile: None,
    });
    assert!(matches!(
        &bad_body,
        ExchangeState::Failed { error: ExchangeError::ProfileDecodeError }
    ));
    assert_eq!(error_status(&ExchangeError::UpstreamExchangeError), 500);
    assert_eq!(error_status(&ExchangeError::UpstreamProfileError(503)), 502);
    assert_eq!(error_status(&ExchangeError::ProfileDecodeError), 502);
    assert_eq!(error_status(&ExchangeError::TokenMintError), 500);
}

#[test]
fn identity_resolution_order() {
    // first non-empty wins: email, login, name, sub, then the numeric id
    let u = profile(Some("e@x"), Some("log"), Some("nm"), Some("sb"), Some(7));
    assert_eq!(resolve_subject(&u), "e@x");
    let u = profile(None, Some("log"), Some("nm"), Some("sb"), Some(7));
    assert_eq!(resolve_subject(&u), "log");
    let u = profile(Some(""), Some("log"), None, None, None);
    assert_eq!(resolve_subject(&u), "log", "empty email must not win");
    let u = profile(None, None, Some("nm"), Some("sb"), Some(7));
    assert_eq!(resolve_subject(&u), "nm");
    let u = profile(None, None, None, Some("sb"), Some(7));
    assert_eq!(resolve_subject(&u), "sb");
    let u = profile(None, None, None, None, Some(7));
    assert_eq!(resolve_subject(&u), "7");
    let u = profile(None, None, None, None, Some(1234567890123));
    assert_eq!(resolve_subject(&u), "1234567890123");
    let u = profile(None, None, None, None, None);
    assert_eq!(resolve_subject(&u), "unknown");
    let u = profile(Some(""), Some(""), Some(""), Some(""), None);
    assert_eq!(resolve_subject(&u), "unknown");
}

#[test]
fn userinfo_urls() {
    assert_eq!(
        userinfo_url_for("google").as_deref(),
        Some("https://www.googleapis.com/oauth2/v3/userinfo")
    );
    assert_eq!(userinfo_url_for("github").as_deref(), Some("https://api.github.com/user"));
    assert_eq!(
        userinfo_url_for("amazon").as_deref(),
        Some("https://api.amazon.com/user/profile")
    );
    assert_eq!(userinfo_url_for("gitlab"), None);
}
