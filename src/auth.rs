//! The credential check that opens every session.
use vstd::prelude::*;
use vstd::string::StringSliceAdditionalSpecFns;
use vstd::utf8::encode_utf8;

verus! {

/// The bytes of `AUTH:`, which every credential token starts with.
pub open spec fn auth_prefix() -> Seq<u8> {
    seq![65u8, 85u8, 84u8, 72u8, 58u8]
}

/// The token a peer must send first: `AUTH:` followed by the secret.
pub struct Credential {
    token: Vec<u8>,
}

impl Credential {
    pub closed spec fn token(&self) -> Seq<u8> {
        self.token@
    }

    /// The credential for a shared secret.
    pub fn from_secret(secret: &str) -> (r: Credential)
        ensures
            r.token() == auth_prefix() + secret.spec_bytes(),
    {
        let mut token: Vec<u8> = vec![65u8, 85u8, 84u8, 72u8, 58u8];
        let bytes = secret.as_bytes();
        let mut i: usize = 0;
        while i < bytes.len()
            invariant
                bytes@ == secret.spec_bytes(),
                i <= bytes@.len(),
                token@ == auth_prefix() + bytes@.subrange(0, i as int),
            decreases bytes@.len() - i,
        {
            token.push(bytes[i]);
            i = i + 1;
            assert(token@ =~= auth_prefix() + bytes@.subrange(0, i as int));
        }
        assert(bytes@.subrange(0, i as int) =~= bytes@);
        Credential { token }
    }

    /// Whether `text` is exactly the token. Equal lengths are compared over
    /// every byte, whatever the first difference, so the time taken does not
    /// tell how much of a guess was right.
    pub fn matches(&self, text: &str) -> (r: bool)
        ensures
            r == (text.spec_bytes() == self.token()),
    {
        let given = text.as_bytes();
        if given.len() != self.token.len() {
            return false;
        }
        let mut diff: u8 = 0;
        let mut i: usize = 0;
        assert(given@.subrange(0, 0) =~= self.token@.subrange(0, 0));
        while i < given.len()
            invariant
                given@ == text.spec_bytes(),
                given@.len() == self.token@.len(),
                i <= given@.len(),
                (diff == 0) == (given@.subrange(0, i as int) == self.token@.subrange(0, i as int)),
            decreases given@.len() - i,
        {
            let a = given[i];
            let b = self.token[i];
            let d = diff | (a ^ b);
            proof {
                assert((d == 0) == (diff == 0 && a == b)) by (bit_vector)
                    requires d == diff | (a ^ b);
                if diff == 0 && a == b {
                    assert(given@.subrange(0, i + 1) =~= self.token@.subrange(0, i + 1));
                }
                if given@.subrange(0, i + 1) == self.token@.subrange(0, i + 1) {
                    assert(given@.subrange(0, i as int) =~= given@.subrange(0, i + 1).subrange(0, i as int));
                    assert(self.token@.subrange(0, i as int) =~= self.token@.subrange(0, i + 1).subrange(0, i as int));
                    assert(given@.subrange(0, i + 1)[i as int] == a);
                }
            }
            diff = d;
            i = i + 1;
        }
        assert(given@.subrange(0, i as int) =~= given@);
        assert(self.token@.subrange(0, i as int) =~= self.token@);
        diff == 0
    }
}

/// Where a session stands with respect to its credential.
#[derive(PartialEq, Eq, Structural, Clone, Copy, Debug)]
pub enum AuthState {
    AwaitingAuth,
    Authenticated,
    Rejected,
}

/// What a connection delivered in place of its next message.
pub enum Inbound {
    Text(String),
    Binary(Vec<u8>),
    /// A protocol frame that carries no payload (ping, pong, close).
    Other,
    /// The connection ended or failed before a message arrived.
    Closed,
}

/// Whether `first` is the credential token as a textual message.
pub open spec fn is_token(cred: Credential, first: Inbound) -> bool {
    match first {
        Inbound::Text(t) => encode_utf8(t@) == cred.token(),
        _ => false,
    }
}

/// Where the credential check leaves a session after its first message.
pub open spec fn gate_outcome(cred: Credential, first: Inbound) -> AuthState {
    if is_token(cred, first) {
        AuthState::Authenticated
    } else {
        AuthState::Rejected
    }
}

/// Judges a session's first message: only the exact token as text opens
/// the session; anything else, or no message at all, rejects it.
pub fn judge_first(cred: &Credential, first: &Inbound) -> (r: AuthState)
    ensures
        r == gate_outcome(*cred, *first),
{
    match first {
        Inbound::Text(t) => {
            if cred.matches(t.as_str()) {
                AuthState::Authenticated
            } else {
                AuthState::Rejected
            }
        },
        _ => AuthState::Rejected,
    }
}

} // verus!
