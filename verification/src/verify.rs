//! The credential verifier: decides whether a presented bearer token
//! authorizes access, as a function of the token, the signing secret and the
//! clock reading.

use crate::credential::{
    check_subject, credential_of, is_subject, is_token, lemma_credential_of, signed_bytes,
    Credential, CredentialView,
};
use crate::hex::{hex, to_hex};
use crate::mac::{compute_tag, hmac_sha256};
use vstd::prelude::*;
use vstd::slice::{slice_subrange, slice_to_vec};

verus! {

/// Why a request was not authorized.
#[derive(Clone, Copy, Debug, PartialEq, Eq, Structural)]
pub enum AuthError {
    /// No `Authorization` header, or not the bearer scheme.
    Missing,
    /// The token has not the shape of a credential, or its subject or
    /// times do not read.
    Malformed,
    /// The signature field is not what the secret gives.
    BadSignature,
    /// The clock reading is at or past the expiry time.
    Expired,
    /// The clock reading is before the issuance time.
    NotYetValid,
}

impl AuthError {
    /// The message shown to the client.
    pub open spec fn spec_message(self) -> Seq<char> {
        match self {
            AuthError::Missing => "Missing bearer credential"@,
            AuthError::Malformed => "Malformed credential"@,
            AuthError::BadSignature => "Invalid credential signature"@,
            AuthError::Expired => "Credential has expired"@,
            AuthError::NotYetValid => "Credential is not yet valid"@,
        }
    }

    /// The message shown to the client, which goes under `error` in the
    /// body of the response.
    pub fn message(&self) -> (text: &'static str)
        ensures
            text@ == self.spec_message(),
    {
        match self {
            AuthError::Missing => "Missing bearer credential",
            AuthError::Malformed => "Malformed credential",
            AuthError::BadSignature => "Invalid credential signature",
            AuthError::Expired => "Credential has expired",
            AuthError::NotYetValid => "Credential is not yet valid",
        }
    }
}

/// The outcome of a verification as a mathematical value.
pub open spec fn outcome(res: Result<Vec<u8>, AuthError>) -> Result<Seq<u8>, AuthError> {
    match res {
        Ok(subject) => Ok(subject@),
        Err(e) => Err(e),
    }
}

/// The verdict on the credential `c` at the reading `now`, where `expected`
/// is the signature that the secret gives for what `c` says. Expiry is
/// judged first: an expired credential is reported as expired whoever signed
/// it. Then the signature field must be `expected` in lowercase hexadecimal,
/// byte for byte: any other field is a bad signature. The issuance time is
/// judged last, so that it is believed only when it is signed.
pub open spec fn verdict(c: CredentialView, expected: Seq<u8>, now: u64) -> Result<
    Seq<u8>,
    AuthError,
> {
    if now >= c.expires_at {
        Err(AuthError::Expired)
    } else if c.signature != hex(expected) {
        Err(AuthError::BadSignature)
    } else if now < c.issued_at {
        Err(AuthError::NotYetValid)
    } else {
        Ok(c.subject)
    }
}

/// ASCII `Bearer `, the scheme and the one space that precede a token in an
/// `Authorization` header.
pub open spec fn bearer_prefix() -> Seq<u8> {
    seq![66u8, 101u8, 97u8, 114u8, 101u8, 114u8, 32u8]
}

/// Whether the header value `header` has the bearer scheme.
pub open spec fn has_bearer_prefix(header: Seq<u8>) -> bool {
    header.len() >= 7 && header.subrange(0, 7) == bearer_prefix()
}

/// Whether `a` and `b` hold the same bytes. Every byte is read, whatever the
/// earlier ones were, when the lengths agree.
pub fn same_bytes(a: &[u8], b: &[u8]) -> (same: bool)
    ensures
        same == (a@ == b@),
{
    if a.len() != b.len() {
        return false;
    }
    let mut diff: u8 = 0;
    let mut i: usize = 0;
    proof {
        assert(a@.take(0) =~= b@.take(0));
    }
    while i < a.len()
        invariant
            0 <= i <= a@.len(),
            a@.len() == b@.len(),
            diff == 0 <==> a@.take(i as int) == b@.take(i as int),
        decreases a@.len() - i,
    {
        let x = a[i];
        let y = b[i];
        let ghost before = diff;
        diff = diff | (x ^ y);
        proof {
            assert((before | (x ^ y)) == 0 <==> before == 0 && x == y) by (bit_vector);
            let pa = a@.take(i as int);
            let pb = b@.take(i as int);
            let qa = a@.take(i + 1);
            let qb = b@.take(i + 1);
            assert(qa.drop_last() =~= pa && qb.drop_last() =~= pb);
            assert(qa.last() == x && qb.last() == y);
            if pa == pb && x == y {
                assert(qa =~= qb);
            }
        }
        i += 1;
    }
    proof {
        assert(a@.take(a@.len() as int) =~= a@);
        assert(b@.take(b@.len() as int) =~= b@);
    }
    diff == 0
}

impl Credential {
    /// Judges the credential at the reading `now` against `expected`, the
    /// signature that the secret gives for what the credential says.
    pub fn judge(self, expected: &[u8], now: u64) -> (res: Result<Vec<u8>, AuthError>)
        ensures
            outcome(res) == verdict(self@, expected@, now),
    {
        if now >= self.expires_at {
            return Err(AuthError::Expired);
        }
        let written = to_hex(expected);
        if !same_bytes(self.signature.as_slice(), written.as_slice()) {
            Err(AuthError::BadSignature)
        } else if now < self.issued_at {
            Err(AuthError::NotYetValid)
        } else {
            Ok(self.subject)
        }
    }
}

/// Holds the signing secret, which is fixed when the verifier is built.
pub struct CredentialVerifier {
    secret: Vec<u8>,
}

impl CredentialVerifier {
    /// The signing secret.
    pub closed spec fn secret(self) -> Seq<u8> {
        self.secret@
    }

    /// The signature that the secret gives for what `c` says.
    pub open spec fn expected_tag(self, c: CredentialView) -> Seq<u8> {
        hmac_sha256(self.secret(), c.signed_part())
    }

    /// The credential that is issued for `subject`, valid from `issued_at`
    /// until `expires_at`.
    pub open spec fn signed(self, subject: Seq<u8>, issued_at: u64, expires_at: u64) -> CredentialView {
        let unsigned = CredentialView { subject, issued_at, expires_at, signature: Seq::empty() };
        CredentialView {
            subject,
            issued_at,
            expires_at,
            signature: hex(self.expected_tag(unsigned)),
        }
    }

    /// What verifying `token` at `now` gives.
    pub open spec fn spec_verify(self, token: Seq<u8>, now: u64) -> Result<Seq<u8>, AuthError> {
        if !is_token(token) {
            Err(AuthError::Malformed)
        } else {
            verdict(credential_of(token), self.expected_tag(credential_of(token)), now)
        }
    }

    /// What a request with the `Authorization` header `header` is found to be
    /// at `now`.
    pub open spec fn spec_authenticate(self, header: Option<Seq<u8>>, now: u64) -> Result<
        Seq<u8>,
        AuthError,
    > {
        match header {
            None => Err(AuthError::Missing),
            Some(h) => if has_bearer_prefix(h) {
                self.spec_verify(h.skip(7), now)
            } else {
                Err(AuthError::Missing)
            },
        }
    }

    /// A verifier for credentials signed with `secret`.
    pub fn new(secret: Vec<u8>) -> (verifier: Self)
        ensures
            verifier.secret() == secret@,
    {
        CredentialVerifier { secret }
    }

    /// Verifies `token` at the reading `now`: the subject it names if it is
    /// a credential, unexpired, signed with the secret and already valid,
    /// and else the first of these that fails.
    pub fn verify(&self, token: &[u8], now: u64) -> (res: Result<Vec<u8>, AuthError>)
        ensures
            outcome(res) == self.spec_verify(token@, now),
    {
        match Credential::parse(token) {
            None => Err(AuthError::Malformed),
            Some(credential) => {
                proof {
                    lemma_credential_of(credential@);
                }
                let signed = credential.signed_part();
                let expected = compute_tag(self.secret.as_slice(), signed.as_slice());
                credential.judge(expected.as_slice(), now)
            },
        }
    }

    /// Verifies the `Authorization` header of a request at the reading
    /// `now`. The header must be `Bearer`, one space, and the token.
    pub fn authenticate(&self, authorization: Option<&[u8]>, now: u64) -> (res: Result<
        Vec<u8>,
        AuthError,
    >)
        ensures
            outcome(res) == self.spec_authenticate(
                match authorization {
                    Some(h) => Some(h@),
                    None => None,
                },
                now,
            ),
    {
        match authorization {
            None => Err(AuthError::Missing),
            Some(header) => {
                if header.len() < 7 {
                    return Err(AuthError::Missing);
                }
                let scheme = slice_subrange(header, 0, 7);
                if scheme[0] == 66 && scheme[1] == 101 && scheme[2] == 97 && scheme[3] == 114
                    && scheme[4] == 101 && scheme[5] == 114 && scheme[6] == 32 {
                    proof {
                        assert(scheme@ =~= bearer_prefix());
                        assert(header@.skip(7) =~= header@.subrange(7, header@.len() as int));
                    }
                    self.verify(slice_subrange(header, 7, header.len()), now)
                } else {
                    proof {
                        let p = bearer_prefix();
                        assert(p[0] == 66 && p[1] == 101 && p[2] == 97 && p[3] == 114 && p[4]
                            == 101 && p[5] == 114 && p[6] == 32);
                    }
                    Err(AuthError::Missing)
                }
            },
        }
    }

    /// Writes the credential for `subject`, valid from `issued_at` until
    /// `expires_at`, signed with the secret. There is none for a name that
    /// is not a subject.
    pub fn issue(&self, subject: &[u8], issued_at: u64, expires_at: u64) -> (token: Option<
        Vec<u8>,
    >)
        ensures
            token is Some <==> is_subject(subject@),
            token matches Some(t) ==> {
                &&& t@ == self.signed(subject@, issued_at, expires_at).encode()
                &&& is_token(t@)
                &&& forall|now: u64|
                    issued_at <= now < expires_at ==> #[trigger] self.spec_verify(t@, now) == Ok::<
                        Seq<u8>,
                        AuthError,
                    >(subject@)
                &&& forall|now: u64|
                    now >= expires_at ==> #[trigger] self.spec_verify(t@, now) == Err::<
                        Seq<u8>,
                        AuthError,
                    >(AuthError::Expired)
                &&& forall|now: u64|
                    now < issued_at && now < expires_at ==> #[trigger] self.spec_verify(t@, now)
                        == Err::<Seq<u8>, AuthError>(AuthError::NotYetValid)
            },
    {
        if !check_subject(subject) {
            return None;
        }
        let signed = signed_bytes(subject, issued_at, expires_at);
        let tag = compute_tag(self.secret.as_slice(), signed.as_slice());
        let signature = to_hex(tag.as_slice());
        let credential = Credential {
            subject: slice_to_vec(subject),
            issued_at,
            expires_at,
            signature,
        };
        proof {
            assert(credential@ == self.signed(subject@, issued_at, expires_at));
            lemma_credential_of(credential@);
        }
        Some(credential.encode())
    }

    /// A token passes only if it writes a credential that the secret signed
    /// and that is valid at the reading; what passes is the credential's
    /// subject.
    pub proof fn law_only_signed_credentials_pass(self, token: Seq<u8>, now: u64)
        requires
            self.spec_verify(token, now) is Ok,
        ensures
            is_token(token),
            credential_of(token).signature == hex(self.expected_tag(credential_of(token))),
            credential_of(token).issued_at <= now < credential_of(token).expires_at,
            self.spec_verify(token, now) == Ok::<Seq<u8>, AuthError>(credential_of(token).subject),
    {
    }

    /// A credential whose expiry time has come is reported as expired,
    /// whatever its signature is.
    pub proof fn law_expired_whatever_the_signature(self, c: CredentialView, now: u64)
        requires
            c.wf(),
            now >= c.expires_at,
        ensures
            self.spec_verify(c.encode(), now) == Err::<Seq<u8>, AuthError>(AuthError::Expired),
    {
        lemma_credential_of(c);
    }

    /// A token that passes at one reading passes at every reading at which
    /// its credential is valid, with the same subject.
    pub proof fn law_verdict_is_stable(self, token: Seq<u8>, first: u64, second: u64)
        requires
            self.spec_verify(token, first) is Ok,
            credential_of(token).issued_at <= second < credential_of(token).expires_at,
        ensures
            self.spec_verify(token, second) == self.spec_verify(token, first),
    {
    }

    /// Changing any one byte of the signature field of a token that passes,
    /// to any other byte, gives a bad signature.
    pub proof fn law_tampered_signature_fails(self, token: Seq<u8>, now: u64, at: int, byte: u8)
        requires
            self.spec_verify(token, now) is Ok,
            token.len() - 64 <= at < token.len(),
            byte != token[at],
        ensures
            self.spec_verify(token.update(at, byte), now) == Err::<Seq<u8>, AuthError>(
                AuthError::BadSignature,
            ),
    {
        let c = credential_of(token);
        let body = c.signed_part() + seq![crate::credential::DOT];
        assert(token == body + c.signature);
        let k = at - body.len();
        let changed = CredentialView {
            subject: c.subject,
            issued_at: c.issued_at,
            expires_at: c.expires_at,
            signature: c.signature.update(k, byte),
        };
        assert(changed.signed_part() == c.signed_part());
        assert(changed.encode() =~= token.update(at, byte));
        lemma_credential_of(changed);
        assert(changed.signature[k] != c.signature[k]);
    }

    /// A credential with any signature field but the one the secret gives
    /// never passes: it is expired if its expiry time has come, and has a
    /// bad signature else.
    pub proof fn law_unsigned_never_passes(self, c: CredentialView, now: u64)
        requires
            c.wf(),
            c.signature != hex(self.expected_tag(c)),
        ensures
            self.spec_verify(c.encode(), now) == Err::<Seq<u8>, AuthError>(
                if now >= c.expires_at {
                    AuthError::Expired
                } else {
                    AuthError::BadSignature
                },
            ),
    {
        lemma_credential_of(c);
    }
}

} // verus!
