//! The login flow's decision core.
//!
//! Completing a login runs the state machine
//! `INIT -> PROVIDER_RESOLVED -> CODE_EXCHANGED -> PROFILE_FETCHED ->
//! SUBJECT_RESOLVED -> TOKEN_ISSUED`, terminal on the first failure.  The
//! network calls between stages live with the caller; every decision — what
//! each outcome means and which stage follows — is made and verified here.

use crate::claims::{mint_claims, token_bytes, TokenError};
use crate::identity::{resolve_subject, subject_of, UserInfo};
use crate::registry::{
    authorize_url, authorize_url_bytes, find_provider, lookup, ProviderRegistry,
};
use crate::text::str_eq;
use vstd::prelude::*;
use vstd::string::StringExecFns;
use vstd::utf8::encode_utf8;

verus! {

/// The query parameters presented at the callback: the authorization code
/// and the state echoed by the provider.  The state is accepted but not
/// cross-checked against the value issued at login, matching the observed
/// behaviour of the flow.
#[derive(Clone, Debug)]
pub struct AuthRequest {
    /// The single-use authorization code.
    pub code: String,
    /// The echoed state value.
    pub state: String,
}

/// Failures of the login flow, each scoped to one request.
#[derive(Clone, Copy, PartialEq, Eq, Structural, Debug)]
pub enum ExchangeError {
    /// The provider id is not configured; surfaced immediately.
    UnknownProvider,
    /// The code-for-token exchange failed upstream, whatever the cause.
    UpstreamExchangeError,
    /// The profile endpoint answered with a non-success status, carried for
    /// diagnostics.
    UpstreamProfileError(u16),
    /// The profile response did not parse as the expected shape.
    ProfileDecodeError,
    /// Reserved for a failure while minting the bearer token; the codec
    /// proves minting total, so the flow never produces it.
    TokenMintError,
}

/// The stages of one callback's processing.
#[derive(Clone, Debug)]
pub enum ExchangeState {
    /// Nothing has happened yet.
    Init,
    /// The provider id was found in the registry.
    ProviderResolved {
        /// The resolved provider id.
        provider_id: String,
    },
    /// The authorization code was redeemed for an access token.
    CodeExchanged {
        /// The resolved provider id.
        provider_id: String,
        /// The bearer credential for the profile fetch.
        access_token: String,
    },
    /// The profile was fetched and parsed.
    ProfileFetched {
        /// The resolved provider id.
        provider_id: String,
        /// The parsed profile fields.
        profile: UserInfo,
    },
    /// The profile was reduced to a canonical subject.
    SubjectResolved {
        /// The resolved provider id.
        provider_id: String,
        /// The canonical subject.
        subject: String,
    },
    /// A bearer token was minted; the flow is complete.
    TokenIssued {
        /// The signed bearer token.
        token: String,
    },
    /// The flow failed; terminal.
    Failed {
        /// What went wrong.
        error: ExchangeError,
    },
}

/// What the caller reports between stages: the begin signal, the outcome
/// of the code exchange, the outcome of the profile fetch, and the advance
/// signal for the two internal stages.
#[derive(Clone, Debug)]
pub enum ExchangeEvent {
    /// Start processing a callback for this provider id.
    Begin {
        /// The provider id from the callback path.
        provider_id: String,
    },
    /// The code exchange finished: the access token, or nothing on any
    /// transport or provider-side failure.
    TokenResult {
        /// The access token, if one was obtained.
        access_token: Option<String>,
    },
    /// The profile fetch finished with this status; the profile is present
    /// exactly when the body parsed as the expected shape.
    ProfileResult {
        /// The upstream response status.
        status: u16,
        /// The parsed profile, if parsing succeeded.
        profile: Option<UserInfo>,
    },
    /// Drive an internal stage that needs no outside result.
    Advance,
}

/// Performs one transition of the login state machine.  A failed state is
/// absorbing, each stage accepts exactly its own event, and a stage paired
/// with any other event is left unchanged.
pub fn exchange_step(
    registry: &ProviderRegistry,
    secret: &[u8],
    now: usize,
    state: ExchangeState,
    event: ExchangeEvent,
) -> (r: ExchangeState)
    requires
        now + 3600 <= usize::MAX,
    ensures
        state matches ExchangeState::Failed { .. } ==> r == state,
        state matches ExchangeState::Init ==> (event matches ExchangeEvent::Begin { provider_id }
            ==> (match find_provider(registry.providers@, provider_id@) {
            Some(_) => r == (ExchangeState::ProviderResolved { provider_id }),
            None => r == (ExchangeState::Failed { error: ExchangeError::UnknownProvider }),
        })),
        state matches ExchangeState::ProviderResolved { provider_id } ==> (event matches
            ExchangeEvent::TokenResult { access_token } ==> (match access_token {
            Some(t) => r == (ExchangeState::CodeExchanged { provider_id, access_token: t }),
            None => r == (ExchangeState::Failed { error: ExchangeError::UpstreamExchangeError }),
        })),
        state matches ExchangeState::CodeExchanged { provider_id, access_token } ==> (
        event matches ExchangeEvent::ProfileResult { status, profile } ==> (if !(200 <= status
            < 300) {
            r == (ExchangeState::Failed { error: ExchangeError::UpstreamProfileError(status) })
        } else {
            match profile {
                Some(p) => r == (ExchangeState::ProfileFetched { provider_id, profile: p }),
                None => r == (ExchangeState::Failed { error: ExchangeError::ProfileDecodeError }),
            }
        })),
        state matches ExchangeState::ProfileFetched { provider_id, profile } ==> (event matches
            ExchangeEvent::Advance ==> (r matches ExchangeState::SubjectResolved {
            provider_id: p2,
            subject: s2,
        } && p2 == provider_id && s2@ == subject_of(&profile))),
        state matches ExchangeState::SubjectResolved { provider_id, subject } ==> (event matches
            ExchangeEvent::Advance ==> (r matches ExchangeState::TokenIssued { token }
            && encode_utf8(token@) == token_bytes(
            encode_utf8(subject@),
            (now + 3600) as nat,
            encode_utf8(provider_id@),
            secret@,
        ))),
        state matches ExchangeState::Init ==> ((event matches ExchangeEvent::Begin { .. }) || r
            == state),
        state matches ExchangeState::ProviderResolved { .. } ==> ((event matches
            ExchangeEvent::TokenResult { .. }) || r == state),
        state matches ExchangeState::CodeExchanged { .. } ==> ((event matches
            ExchangeEvent::ProfileResult { .. }) || r == state),
        state matches ExchangeState::ProfileFetched { .. } ==> ((event matches
            ExchangeEvent::Advance) || r == state),
        state matches ExchangeState::SubjectResolved { .. } ==> ((event matches
            ExchangeEvent::Advance) || r == state),
        state matches ExchangeState::TokenIssued { .. } ==> r == state,
{
    match (state, event) {
        (ExchangeState::Init, ExchangeEvent::Begin { provider_id }) => {
            match lookup(registry, provider_id.as_str()) {
                Some(_) => ExchangeState::ProviderResolved { provider_id },
                None => ExchangeState::Failed { error: ExchangeError::UnknownProvider },
            }
        },
        (ExchangeState::ProviderResolved { provider_id }, ExchangeEvent::TokenResult {
            access_token,
        }) => {
            match access_token {
                Some(t) => ExchangeState::CodeExchanged { provider_id, access_token: t },
                None => ExchangeState::Failed { error: ExchangeError::UpstreamExchangeError },
            }
        },
        (ExchangeState::CodeExchanged { provider_id, access_token: _ },
        ExchangeEvent::ProfileResult { status, profile }) => {
            if !(200 <= status && status < 300) {
                ExchangeState::Failed { error: ExchangeError::UpstreamProfileError(status) }
            } else {
                match profile {
                    Some(p) => ExchangeState::ProfileFetched { provider_id, profile: p },
                    None => ExchangeState::Failed { error: ExchangeError::ProfileDecodeError },
                }
            }
        },
        (ExchangeState::ProfileFetched { provider_id, profile }, ExchangeEvent::Advance) => {
            let subject = resolve_subject(&profile);
            ExchangeState::SubjectResolved { provider_id, subject }
        },
        (ExchangeState::SubjectResolved { provider_id, subject }, ExchangeEvent::Advance) => {
            match mint_claims(secret, subject.as_str(), provider_id.as_str(), now) {
                Ok(token) => ExchangeState::TokenIssued { token },
                Err(_) => vstd::pervasive::unreached(),
            }
        },
        (s, _) => s,
    }
}

/// Validates the provider id and builds the authorization redirect for the
/// login-initiation operation; an unconfigured id fails before any redirect
/// target is produced.
pub fn initiate_login(registry: &ProviderRegistry, provider_id: &str, state: &str) -> (r: Result<
    String,
    ExchangeError,
>)
    ensures
        match r {
            Ok(url) => find_provider(registry.providers@, provider_id@) matches Some(c)
                && encode_utf8(url@) == authorize_url_bytes(
                encode_utf8(c.authorization_endpoint@),
                encode_utf8(c.client_id@),
                encode_utf8(c.redirect_uri@),
                encode_utf8(state@),
            ),
            Err(e) => e == ExchangeError::UnknownProvider && find_provider(
                registry.providers@,
                provider_id@,
            ) is None,
        },
{
    match lookup(registry, provider_id) {
        Some(config) => Ok(authorize_url(config, state)),
        None => Err(ExchangeError::UnknownProvider),
    }
}

/// The provider-specific profile endpoint used after the code exchange.
pub fn userinfo_url_for(provider_id: &str) -> (r: Option<String>)
    ensures
        provider_id@ == "google"@ ==> (r matches Some(u) && u@
            == "https://www.googleapis.com/oauth2/v3/userinfo"@),
        provider_id@ == "github"@ ==> (r matches Some(u) && u@ == "https://api.github.com/user"@),
        provider_id@ == "amazon"@ ==> (r matches Some(u) && u@
            == "https://api.amazon.com/user/profile"@),
        provider_id@ != "google"@ && provider_id@ != "github"@ && provider_id@ != "amazon"@
            ==> r is None,
{
    proof {
        reveal_strlit("google");
        reveal_strlit("github");
        reveal_strlit("amazon");
        assert("google"@[1] == 'o' && "github"@[1] == 'i' && "amazon"@[1] == 'm');
        assert("google"@ != "github"@);
        assert("google"@ != "amazon"@);
        assert("github"@ != "amazon"@);
    }
    if str_eq(provider_id, "google") {
        Some(String::from_str("https://www.googleapis.com/oauth2/v3/userinfo"))
    } else if str_eq(provider_id, "github") {
        Some(String::from_str("https://api.github.com/user"))
    } else if str_eq(provider_id, "amazon") {
        Some(String::from_str("https://api.amazon.com/user/profile"))
    } else {
        None
    }
}

/// The status class a caller reports for each failure: a client error for
/// an unknown provider, a gateway error for upstream profile trouble, and
/// an internal error for the exchange and for minting.
pub fn error_status(e: &ExchangeError) -> (r: u16)
    ensures
        e matches ExchangeError::UnknownProvider ==> r == 400,
        e matches ExchangeError::UpstreamExchangeError ==> r == 500,
        e matches ExchangeError::UpstreamProfileError(_) ==> r == 502,
        e matches ExchangeError::ProfileDecodeError ==> r == 502,
        e matches ExchangeError::TokenMintError ==> r == 500,
{
    match e {
        ExchangeError::UnknownProvider => 400,
        ExchangeError::UpstreamExchangeError => 500,
        ExchangeError::UpstreamProfileError(_) => 502,
        ExchangeError::ProfileDecodeError => 502,
        ExchangeError::TokenMintError => 500,
    }
}

} // verus!
