//! Authentication and channel-protection core: the OAuth login flow's
//! decision logic, a signed-claims bearer-token codec, a post-quantum key
//! encapsulation service and an authenticated symmetric cipher service,
//! together with the base64/JSON wire codecs they are stated over.

pub mod aead;
pub mod b64;
pub mod claims;
pub mod exchange;
pub mod identity;
pub mod jsonc;
pub mod kem;
pub mod registry;
pub mod text;
