//! Provider registry and login-initiation URL construction.
//!
//! The registry holds one immutable configuration per identity provider,
//! keyed by provider id.  The authorization redirect URL is assembled — with
//! verified percent-encoding — from the provider's endpoint and credentials,
//! a caller-supplied state value, and the fixed scope set requesting an
//! identifier, email and basic profile.

use crate::text::{bytes_to_string, lemma_ascii_valid_utf8};
use vstd::string::StrSliceExecFns;
use vstd::prelude::*;
use vstd::utf8::encode_utf8;

verus! {

/// One provider's OAuth endpoints and credentials; immutable once loaded.
#[derive(Clone, Debug)]
pub struct ProviderConfig {
    /// Registry key, e.g. `google`.
    pub provider_id: String,
    /// Where the user agent is redirected to authorize.
    pub authorization_endpoint: String,
    /// Where an authorization code is exchanged for an access token.
    pub token_endpoint: String,
    /// Where the profile is fetched with the access token.
    pub userinfo_endpoint: String,
    /// Client identifier issued by the provider.
    pub client_id: String,
    /// Client secret issued by the provider.
    pub client_secret: String,
    /// The callback address presented at login and exchange.
    pub redirect_uri: String,
}

/// The set of configured providers.
pub struct ProviderRegistry {
    /// The configurations, at most one per provider id.
    pub providers: Vec<ProviderConfig>,
}

/// Uniqueness invariant: at most one configuration per provider id.
pub open spec fn registry_wf(r: &ProviderRegistry) -> bool {
    forall|i: int, j: int|
        0 <= i < j < r.providers@.len() ==> #[trigger] r.providers@[i].provider_id@
            != #[trigger] r.providers@[j].provider_id@
}

/// The first configuration for an id, if any.
pub open spec fn find_provider(s: Seq<ProviderConfig>, id: Seq<char>) -> Option<ProviderConfig>
    decreases s.len(),
{
    if s.len() == 0 {
        None
    } else if s[0].provider_id@ == id {
        Some(s[0])
    } else {
        find_provider(s.skip(1), id)
    }
}

/// Under the uniqueness invariant, any entry whose id matches is the one
/// the lookup finds: the registry determines each provider's configuration.
pub proof fn lemma_find_provider_unique(s: Seq<ProviderConfig>, id: Seq<char>, i: int)
    requires
        forall|a: int, b: int|
            0 <= a < b < s.len() ==> #[trigger] s[a].provider_id@ != #[trigger] s[b].provider_id@,
        0 <= i < s.len(),
        s[i].provider_id@ == id,
    ensures
        find_provider(s, id) == Some(s[i]),
    decreases s.len(),
{
    if i == 0 {
    } else {
        assert(s[0].provider_id@ != s[i].provider_id@);
        assert(s.skip(1)[i - 1] == s[i]);
        assert(forall|a: int, b: int|
            0 <= a < b < s.skip(1).len() ==> #[trigger] s.skip(1)[a].provider_id@ != #[trigger] s.skip(
                1,
            )[b].provider_id@);
        lemma_find_provider_unique(s.skip(1), id, i - 1);
    }
}

/// Looks a provider up by id.
pub fn lookup<'a>(registry: &'a ProviderRegistry, provider_id: &str) -> (r: Option<
    &'a ProviderConfig,
>)
    ensures
        match r {
            Some(c) => find_provider(registry.providers@, provider_id@) == Some(*c),
            None => find_provider(registry.providers@, provider_id@) is None,
        },
{
    let n = registry.providers.len();
    let mut i: usize = 0;
    proof {
        assert(registry.providers@.skip(0) =~= registry.providers@);
    }
    while i < n
        invariant
            i <= n == registry.providers@.len(),
            find_provider(registry.providers@.skip(i as int), provider_id@) == find_provider(
                registry.providers@,
                provider_id@,
            ),
        decreases n - i,
    {
        let c = &registry.providers[i];
        proof {
            assert(registry.providers@.skip(i as int)[0] == registry.providers@[i as int]);
            assert(registry.providers@.skip(i as int).skip(1) =~= registry.providers@.skip(
                i as int + 1,
            ));
        }
        if crate::text::str_eq(c.provider_id.as_str(), provider_id) {
            return Some(c);
        }
        i = i + 1;
    }
    proof {
        assert(registry.providers@.skip(i as int).len() == 0);
    }
    None
}

/// Uppercase hex digit for a value in `0..16`.
pub open spec fn hex_upper(v: int) -> u8 {
    if v < 10 {
        (48 + v) as u8
    } else {
        (65 + (v - 10)) as u8
    }
}

/// True for the bytes that percent-encoding passes through unchanged.
pub open spec fn is_unreserved(b: u8) -> bool {
    (48 <= b < 58) || (65 <= b < 91) || (97 <= b < 123) || b == 45 || b == 46 || b == 95 || b
        == 126
}

/// Percent-encoding of one byte.
pub open spec fn pct_byte(b: u8) -> Seq<u8> {
    if is_unreserved(b) {
        seq![b]
    } else {
        seq![37u8, hex_upper(b as int / 16), hex_upper(b as int % 16)]
    }
}

/// Percent-encoding of a byte sequence, for URL query components.
pub open spec fn pct_encode(s: Seq<u8>) -> Seq<u8>
    decreases s.len(),
{
    if s.len() == 0 {
        Seq::empty()
    } else {
        pct_byte(s[0]) + pct_encode(s.skip(1))
    }
}

/// Percent-encoded output is ASCII.
pub proof fn lemma_pct_encode_ascii(s: Seq<u8>)
    ensures
        forall|k: int| 0 <= k < pct_encode(s).len() ==> #[trigger] pct_encode(s)[k] < 128,
    decreases s.len(),
{
    if s.len() > 0 {
        lemma_pct_encode_ascii(s.skip(1));
        assert forall|k: int| 0 <= k < pct_encode(s).len() implies #[trigger] pct_encode(s)[k]
            < 128 by {
            if k >= pct_byte(s[0]).len() {
                assert(pct_encode(s)[k] == pct_encode(s.skip(1))[k - pct_byte(s[0]).len()]);
            }
        }
    }
}

/// Uppercase hex digit, executable form.
fn hex_upper_x(v: u8) -> (r: u8)
    requires
        v < 16,
    ensures
        r == hex_upper(v as int),
{
    if v < 10 {
        48 + v
    } else {
        65 + (v - 10)
    }
}

/// Percent-encodes a byte sequence.
pub fn pct_encode_x(s: &[u8]) -> (r: Vec<u8>)
    ensures
        r@ == pct_encode(s@),
{
    let mut out: Vec<u8> = Vec::new();
    let mut i: usize = 0;
    proof {
        assert(s@.skip(0) =~= s@);
        assert(out@ + pct_encode(s@) =~= pct_encode(s@));
    }
    while i < s.len()
        invariant
            i <= s@.len(),
            out@ + pct_encode(s@.skip(i as int)) == pct_encode(s@),
        decreases s@.len() - i,
    {
        let b = s[i];
        proof {
            assert(s@.skip(i as int)[0] == b);
            assert(s@.skip(i as int).skip(1) =~= s@.skip(i as int + 1));
        }
        if (48 <= b && b < 58) || (65 <= b && b < 91) || (97 <= b && b < 123) || b == 45 || b
            == 46 || b == 95 || b == 126 {
            out.push(b);
        } else {
            out.push(37);
            out.push(hex_upper_x(b / 16));
            out.push(hex_upper_x(b % 16));
        }
        i = i + 1;
        proof {
            assert(out@ + pct_encode(s@.skip(i as int)) =~= pct_encode(s@));
        }
    }
    proof {
        assert(s@.skip(i as int).len() == 0);
        assert(out@ + pct_encode(s@.skip(i as int)) =~= out@);
    }
    out
}

/// The query prefix up to the client id.
pub open spec fn q_client_id() -> Seq<u8> {
    encode_utf8("?response_type=code&client_id="@)
}

/// The query fragment before the redirect URI.
pub open spec fn q_redirect() -> Seq<u8> {
    encode_utf8("&redirect_uri="@)
}

/// The query fragment holding the fixed scopes — an identifier, email and
/// basic profile — and opening the state parameter.
pub open spec fn q_scope_state() -> Seq<u8> {
    encode_utf8("&scope=openid%20email%20profile&state="@)
}

/// The authorization redirect URL for a provider configuration and a state
/// value.
pub open spec fn authorize_url_bytes(
    auth_endpoint: Seq<u8>,
    client_id: Seq<u8>,
    redirect_uri: Seq<u8>,
    state: Seq<u8>,
) -> Seq<u8> {
    auth_endpoint + q_client_id() + pct_encode(client_id) + q_redirect() + pct_encode(
        redirect_uri,
    ) + q_scope_state() + pct_encode(state)
}

/// The redirect target begins with the provider's authorization endpoint,
/// and its query carries the fixed scope set verbatim.
pub proof fn lemma_authorize_url_shape(
    auth_endpoint: Seq<u8>,
    client_id: Seq<u8>,
    redirect_uri: Seq<u8>,
    state: Seq<u8>,
)
    ensures
        authorize_url_bytes(auth_endpoint, client_id, redirect_uri, state).subrange(
            0,
            auth_endpoint.len() as int,
        ) == auth_endpoint,
        exists|k: int|
            0 <= k && k + q_scope_state().len() <= authorize_url_bytes(
                auth_endpoint,
                client_id,
                redirect_uri,
                state,
            ).len() && #[trigger] authorize_url_bytes(
                auth_endpoint,
                client_id,
                redirect_uri,
                state,
            ).subrange(k, k + q_scope_state().len() as int) == q_scope_state(),
{
    let u = authorize_url_bytes(auth_endpoint, client_id, redirect_uri, state);
    assert(u.subrange(0, auth_endpoint.len() as int) =~= auth_endpoint);
    let p = auth_endpoint + q_client_id() + pct_encode(client_id) + q_redirect() + pct_encode(
        redirect_uri,
    );
    let k = p.len() as int;
    assert(u.subrange(k, k + q_scope_state().len() as int) =~= q_scope_state());
}

/// Builds the authorization redirect URL for a provider and a
/// caller-supplied state value.
pub fn authorize_url(config: &ProviderConfig, state: &str) -> (r: String)
    ensures
        encode_utf8(r@) == authorize_url_bytes(
            encode_utf8(config.authorization_endpoint@),
            encode_utf8(config.client_id@),
            encode_utf8(config.redirect_uri@),
            encode_utf8(state@),
        ),
{
    let mut out: Vec<u8> = Vec::new();
    let mut part = config.authorization_endpoint.as_str().as_bytes_vec();
    out.append(&mut part);
    let mut q1 = "?response_type=code&client_id=".as_bytes_vec();
    out.append(&mut q1);
    let mut cid = pct_encode_x(config.client_id.as_str().as_bytes());
    out.append(&mut cid);
    let mut q2 = "&redirect_uri=".as_bytes_vec();
    out.append(&mut q2);
    let mut ruri = pct_encode_x(config.redirect_uri.as_str().as_bytes());
    out.append(&mut ruri);
    let mut q3 = "&scope=openid%20email%20profile&state=".as_bytes_vec();
    out.append(&mut q3);
    let mut st = pct_encode_x(state.as_bytes());
    out.append(&mut st);
    proof {
        assert(out@ =~= authorize_url_bytes(
            encode_utf8(config.authorization_endpoint@),
            encode_utf8(config.client_id@),
            encode_utf8(config.redirect_uri@),
            encode_utf8(state@),
        ));
    }
    match bytes_to_string(out) {
        Ok(s) => s,
        Err(_) => {
            proof {
                vstd::utf8::encode_utf8_valid_utf8(config.authorization_endpoint@);
                lemma_url_valid_utf8(
                    encode_utf8(config.authorization_endpoint@),
                    encode_utf8(config.client_id@),
                    encode_utf8(config.redirect_uri@),
                    encode_utf8(state@),
                );
            }
            String::new()
        },
    }
}

/// An authorization URL is valid UTF-8 whenever its endpoint bytes are, so
/// conversion back to a string cannot fail.
proof fn lemma_url_valid_utf8(
    auth_endpoint: Seq<u8>,
    client_id: Seq<u8>,
    redirect_uri: Seq<u8>,
    state: Seq<u8>,
)
    requires
        vstd::utf8::valid_utf8(auth_endpoint),
    ensures
        vstd::utf8::valid_utf8(authorize_url_bytes(auth_endpoint, client_id, redirect_uri, state)),
{
    lemma_pct_encode_ascii(client_id);
    lemma_pct_encode_ascii(redirect_uri);
    lemma_pct_encode_ascii(state);
    lemma_ascii_valid_utf8(pct_encode(client_id));
    lemma_ascii_valid_utf8(pct_encode(redirect_uri));
    lemma_ascii_valid_utf8(pct_encode(state));
    lemma_q_ascii();
    let s1 = auth_endpoint + q_client_id();
    vstd::utf8::valid_utf8_concat(auth_endpoint, q_client_id());
    let s2 = s1 + pct_encode(client_id);
    vstd::utf8::valid_utf8_concat(s1, pct_encode(client_id));
    let s3 = s2 + q_redirect();
    vstd::utf8::valid_utf8_concat(s2, q_redirect());
    let s4 = s3 + pct_encode(redirect_uri);
    vstd::utf8::valid_utf8_concat(s3, pct_encode(redirect_uri));
    let s5 = s4 + q_scope_state();
    vstd::utf8::valid_utf8_concat(s4, q_scope_state());
    vstd::utf8::valid_utf8_concat(s5, pct_encode(state));
}

/// The fixed query fragments are ASCII, hence valid UTF-8.
proof fn lemma_q_ascii()
    ensures
        vstd::utf8::valid_utf8(q_client_id()),
        vstd::utf8::valid_utf8(q_redirect()),
        vstd::utf8::valid_utf8(q_scope_state()),
{
    reveal_strlit("?response_type=code&client_id=");
    reveal_strlit("&redirect_uri=");
    reveal_strlit("&scope=openid%20email%20profile&state=");
    vstd::utf8::encode_utf8_valid_utf8("?response_type=code&client_id="@);
    vstd::utf8::encode_utf8_valid_utf8("&redirect_uri="@);
    vstd::utf8::encode_utf8_valid_utf8("&scope=openid%20email%20profile&state="@);
}

} // verus!
