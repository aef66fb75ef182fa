//! Authentication with the block engine: a challenge signed with a key pair is exchanged for an
//! access token and a refresh token, which are renewed before they expire.
//!
//! Points in time are nanoseconds of one clock.
use crate::bytes::extend;
use crate::text::{chars_of, owned};
use solana_keypair::Keypair;
use solana_signer::Signer;
use vstd::prelude::*;
use vstd::string::StringExecFns;

verus! {

/// Why the block engine cannot be used.
#[derive(Debug)]
pub enum BlockEngineConnectionError {
    /// The connection failed, with the reason.
    Transport(String),
    /// The block engine refused, with its status.
    Client(String),
    /// A reply lacked a part.
    Deserialization,
}

/// The text of an error.
pub open spec fn connection_error_text(error: BlockEngineConnectionError) -> Seq<char> {
    match error {
        BlockEngineConnectionError::Transport(msg) => "transport error: "@ + msg@,
        BlockEngineConnectionError::Client(msg) => "client error: "@ + msg@,
        BlockEngineConnectionError::Deserialization => "deserializing error"@,
    }
}

impl BlockEngineConnectionError {
    /// The error as text.
    pub fn text(&self) -> (text: String)
        ensures
            text@ == connection_error_text(*self),
    {
        match self {
            BlockEngineConnectionError::Transport(msg) => {
                let mut text = owned("transport error: ");
                text.append(msg.as_str());
                text
            },
            BlockEngineConnectionError::Client(msg) => {
                let mut text = owned("client error: ");
                text.append(msg.as_str());
                text
            },
            BlockEngineConnectionError::Deserialization => owned("deserializing error"),
        }
    }
}

/// Result of an operation on the block engine's connection.
pub type BlockEngineConnectionResult<T> = Result<T, BlockEngineConnectionError>;

/// A token and the time at which it expires.
#[derive(Debug)]
pub struct AuthToken {
    pub value: String,
    pub expires_at_ns: Option<i128>,
}

/// Tokens with less time left than this are renewed: 5 minutes.
pub const TOKEN_RENEWAL_NS: i128 = 300_000_000_000;

/// Pause between two looks at the tokens: 5 seconds.
pub const TOKEN_CHECK_PAUSE_NS: u64 = 5_000_000_000;

/// Time left until `expires_at`, 0 where it has passed.
pub open spec fn time_left(expires_at: int, now: int) -> int {
    if expires_at > now {
        expires_at - now
    } else {
        0
    }
}

/// What the refresh thread does next.
#[derive(Debug, Clone, Copy, PartialEq, Eq, Structural)]
pub enum TokenAction {
    /// Authenticate from the start.
    FullAuth,
    /// Trade the refresh token for a new access token.
    RefreshAccess,
    /// Look again after this many nanoseconds.
    Sleep(u64),
}

/// The tokens in use.
#[derive(Debug)]
pub struct TokenState {
    /// The access token, sent with every request.
    pub bearer: String,
    pub access_expires_ns: i128,
    pub refresh_token: AuthToken,
}

/// Both tokens of a reply, which must be there.
pub fn required_tokens(access: Option<AuthToken>, refresh: Option<AuthToken>) -> (tokens:
    BlockEngineConnectionResult<(AuthToken, AuthToken)>)
    ensures
        match (access, refresh) {
            (Some(a), Some(r)) => tokens == Ok::<
                (AuthToken, AuthToken),
                BlockEngineConnectionError,
            >((a, r)),
            _ => tokens == Err::<(AuthToken, AuthToken), BlockEngineConnectionError>(
                BlockEngineConnectionError::Deserialization,
            ),
        },
{
    match access {
        Some(a) => match refresh {
            Some(r) => Ok((a, r)),
            None => Err(BlockEngineConnectionError::Deserialization),
        },
        None => Err(BlockEngineConnectionError::Deserialization),
    }
}

impl TokenState {
    /// The tokens of a first authentication; the access token must say when it expires.
    pub fn start(access: AuthToken, refresh: AuthToken) -> (started: BlockEngineConnectionResult<
        TokenState,
    >)
        ensures
            match access.expires_at_ns {
                Some(expires) => started == Ok::<TokenState, BlockEngineConnectionError>(
                    TokenState {
                        bearer: access.value,
                        access_expires_ns: expires,
                        refresh_token: refresh,
                    },
                ),
                None => started == Err::<TokenState, BlockEngineConnectionError>(
                    BlockEngineConnectionError::Deserialization,
                ),
            },
    {
        match access.expires_at_ns {
            Some(expires) => Ok(
                TokenState {
                    bearer: access.value,
                    access_expires_ns: expires,
                    refresh_token: refresh,
                },
            ),
            None => Err(BlockEngineConnectionError::Deserialization),
        }
    }

    /// Whether a token with this expiry is to be renewed.
    pub open spec fn due(expires_at: int, now: int) -> bool {
        time_left(expires_at, now) < TOKEN_RENEWAL_NS
    }

    /// What is to be done with tokens of these expiries.
    pub open spec fn action_at(refresh_expires: int, access_expires: int, now: int) -> TokenAction {
        if TokenState::due(refresh_expires, now) {
            TokenAction::FullAuth
        } else if TokenState::due(access_expires, now) {
            TokenAction::RefreshAccess
        } else {
            TokenAction::Sleep(TOKEN_CHECK_PAUSE_NS)
        }
    }

    /// What to do at time `now`: the refresh token goes first.
    pub fn next_action(&self, now_ns: i128) -> (action: TokenAction)
        requires
            self.refresh_token.expires_at_ns is Some,
            i128::MIN / 2 <= now_ns <= i128::MAX / 2,
        ensures
            action == if TokenState::due(
                self.refresh_token.expires_at_ns->Some_0 as int,
                now_ns as int,
            ) {
                TokenAction::FullAuth
            } else if TokenState::due(self.access_expires_ns as int, now_ns as int) {
                TokenAction::RefreshAccess
            } else {
                TokenAction::Sleep(TOKEN_CHECK_PAUSE_NS)
            },
            action == TokenState::action_at(
                self.refresh_token.expires_at_ns->Some_0 as int,
                self.access_expires_ns as int,
                now_ns as int,
            ),
    {
        let limit: i128 = now_ns + TOKEN_RENEWAL_NS;
        let refresh_expires: i128 = match self.refresh_token.expires_at_ns {
            Some(expires) => expires,
            None => 0,
        };
        if refresh_expires < limit {
            TokenAction::FullAuth
        } else if self.access_expires_ns < limit {
            TokenAction::RefreshAccess
        } else {
            TokenAction::Sleep(TOKEN_CHECK_PAUSE_NS)
        }
    }

    /// Takes in the tokens of another full authentication.
    pub fn on_full_auth(&mut self, access: AuthToken, refresh: AuthToken)
        requires
            access.expires_at_ns is Some,
        ensures
            *final(self) == (TokenState {
                bearer: access.value,
                access_expires_ns: access.expires_at_ns->Some_0,
                refresh_token: refresh,
            }),
    {
        if let Some(expires) = access.expires_at_ns {
            self.bearer = access.value;
            self.access_expires_ns = expires;
            self.refresh_token = refresh;
        }
    }

    /// Takes in a new access token.
    pub fn on_access_refreshed(&mut self, access: AuthToken)
        requires
            access.expires_at_ns is Some,
        ensures
            *final(self) == (TokenState {
                bearer: access.value,
                access_expires_ns: access.expires_at_ns->Some_0,
                refresh_token: old(self).refresh_token,
            }),
    {
        if let Some(expires) = access.expires_at_ns {
            self.bearer = access.value;
            self.access_expires_ns = expires;
        }
    }
}

/// While the refresh thread sleeps, neither token expires before its next look: both are good for
/// at least 5 minutes, and the pause is 5 seconds.
pub proof fn law_tokens_outlive_the_pause(refresh_expires: int, access_expires: int, now: int)
    requires
        !TokenState::due(refresh_expires, now),
        !TokenState::due(access_expires, now),
    ensures
        time_left(refresh_expires, now + TOKEN_CHECK_PAUSE_NS) > 0,
        time_left(access_expires, now + TOKEN_CHECK_PAUSE_NS) > 0,
{
}

/// The header that carries the access token.
pub fn bearer_header(token: &str) -> (header: Result<String, String>)
    ensures
        token@.len() == 0 ==> (header matches Err(e) && e@ == "missing bearer token"@),
        token@.len() > 0 ==> (header matches Ok(h) && h@ == "Bearer "@ + token@),
{
    let chars = chars_of(token);
    if chars.len() == 0 {
        return Err(owned("missing bearer token"));
    }
    let mut header = owned("Bearer ");
    header.append(token);
    Ok(header)
}

/// Whether a URL is reached over TLS: those that start with "https".
pub fn uses_tls(url: &str) -> (tls: bool)
    ensures
        tls == (url@.len() >= 5 && url@.subrange(0, 5) == "https"@),
{
    let chars = chars_of(url);
    proof {
        reveal_strlit("https");
    }
    if chars.len() < 5 {
        return false;
    }
    let tls = chars[0] == 'h' && chars[1] == 't' && chars[2] == 't' && chars[3] == 'p' && chars[4]
        == 's';
    proof {
        if tls {
            assert(url@.subrange(0, 5) =~= "https"@);
        } else if url@.subrange(0, 5) == "https"@ {
            assert(url@[0] == url@.subrange(0, 5)[0]);
            assert(url@[1] == url@.subrange(0, 5)[1]);
            assert(url@[2] == url@.subrange(0, 5)[2]);
            assert(url@[3] == url@.subrange(0, 5)[3]);
            assert(url@[4] == url@.subrange(0, 5)[4]);
        }
    }
    tls
}

/// The public key that belongs to a secret key.
pub uninterp spec fn public_key(secret: Seq<u8>) -> Seq<u8>;

/// Calls `Keypair::new_from_array` and `Signer::pubkey`: the 32 bytes of the public key, which
/// depend on the secret key alone.
#[verifier::external_body]
pub(crate) fn pubkey_of(secret: &[u8; 32]) -> (key: [u8; 32])
    ensures
        key@ == public_key(secret@),
{
    Keypair::new_from_array(*secret).pubkey().to_bytes()
}

/// The signature of a message under a secret key.
pub uninterp spec fn message_signature(secret: Seq<u8>, message: Seq<u8>) -> Seq<u8>;

/// Calls `Signer::sign_message` on the key pair of the secret key: the 64 bytes of the signature,
/// which depend on the key and the message alone.
#[verifier::external_body]
pub(crate) fn signature_of(secret: &[u8; 32], message: &[u8]) -> (signature: [u8; 64])
    ensures
        signature@ == message_signature(secret@, message@),
{
    Keypair::new_from_array(*secret).sign_message(message).into()
}

/// The customary text of a public key.
pub uninterp spec fn key_text(key: Seq<u8>) -> Seq<char>;

/// Renders a public key through `Pubkey`'s `Display`; the text depends on the bytes alone.
#[verifier::external_body]
pub(crate) fn text_of_key(key: &[u8; 32]) -> (text: String)
    ensures
        text@ == key_text(key@),
{
    solana_pubkey::Pubkey::new_from_array(*key).to_string()
}

/// What is sent to exchange a challenge for tokens.
#[derive(Debug)]
pub struct AuthTokensRequest {
    pub challenge: String,
    pub client_pubkey: Vec<u8>,
    pub signed_challenge: Vec<u8>,
}

/// The text that is signed: the public key, a hyphen and the block engine's challenge.
pub open spec fn challenge_text(key_text: Seq<char>, challenge: Seq<char>) -> Seq<char> {
    key_text + "-"@ + challenge
}

/// Joins the public key's text and a challenge.
pub fn challenge_for(key_text: &str, challenge: &str) -> (text: String)
    ensures
        text@ == challenge_text(key_text@, challenge@),
{
    let mut text = owned(key_text);
    text.append("-");
    text.append(challenge);
    text
}

/// Answers a challenge: the joined text, the public key, and the signature of the text's UTF-8
/// bytes.
pub fn answer_challenge(secret: &[u8; 32], challenge: &str) -> (request: AuthTokensRequest)
    ensures
        request.challenge@ == challenge_text(key_text(public_key(secret@)), challenge@),
        request.client_pubkey@ == public_key(secret@),
        request.signed_challenge@ == message_signature(
            secret@,
            vstd::utf8::encode_utf8(request.challenge@),
        ),
{
    let key = pubkey_of(secret);
    let name = text_of_key(&key);
    let text = challenge_for(name.as_str(), challenge);
    let signature = signature_of(secret, text.as_str().as_bytes());
    let mut client_pubkey: Vec<u8> = Vec::new();
    extend(&mut client_pubkey, key.as_slice());
    let mut signed_challenge: Vec<u8> = Vec::new();
    extend(&mut signed_challenge, signature.as_slice());
    AuthTokensRequest { challenge: text, client_pubkey, signed_challenge }
}

} // verus!
