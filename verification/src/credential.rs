//! The bearer credential and its wire form.
//!
//! A credential is written as four fields separated by dots:
//! `subject.issued.expires.signature`. The subject is a non-empty name of
//! ASCII letters, digits, `-` and `_`; the two times are decimal numbers of
//! milliseconds without leading zeros; the signature field is whatever
//! follows the third dot and has 64 bytes, which in a credential that the
//! service signed are the 32 bytes of the signature in lowercase
//! hexadecimal. A token whose first three fields read and whose last field
//! has that length is a credential, whatever the last field holds: what it
//! holds is for the verifier to judge. Every credential has one spelling.

use crate::decimal::{
    decimal, decimal_value, is_decimal, lemma_decimal_is_canonical, lemma_decimal_reads_back,
    parse_decimal, push_decimal,
};
use vstd::prelude::*;
use vstd::slice::{slice_subrange, slice_to_vec};

verus! {

/// ASCII `.`, which separates the fields.
pub const DOT: u8 = 46;

/// Length of the signature field in bytes: a signature of 32 bytes in
/// hexadecimal.
pub const SIGNATURE_LEN: usize = 64;

/// A credential as presented: who it names, when it is valid, and the
/// signature field as it is written.
#[derive(Debug, PartialEq, Eq)]
pub struct Credential {
    pub subject: Vec<u8>,
    pub issued_at: u64,
    pub expires_at: u64,
    pub signature: Vec<u8>,
}

/// The mathematical value of a [`Credential`].
pub struct CredentialView {
    pub subject: Seq<u8>,
    pub issued_at: u64,
    pub expires_at: u64,
    pub signature: Seq<u8>,
}

impl View for Credential {
    type V = CredentialView;

    open spec fn view(&self) -> CredentialView {
        CredentialView {
            subject: self.subject@,
            issued_at: self.issued_at,
            expires_at: self.expires_at,
            signature: self.signature@,
        }
    }
}

/// Whether `b` may stand in a subject: an ASCII letter, a digit, `-` or `_`.
pub open spec fn is_subject_byte(b: u8) -> bool {
    48 <= b <= 57 || 65 <= b <= 90 || 97 <= b <= 122 || b == 45 || b == 95
}

/// Whether `s` is a subject: non-empty, of subject bytes only.
pub open spec fn is_subject(s: Seq<u8>) -> bool {
    &&& s.len() >= 1
    &&& forall|i: int| 0 <= i < s.len() ==> is_subject_byte(#[trigger] s[i])
}

impl CredentialView {
    /// Whether the credential can be written: it names a subject and its
    /// signature field has the length of one.
    pub open spec fn wf(self) -> bool {
        is_subject(self.subject) && self.signature.len() == 64
    }

    /// The bytes that the signature covers: the first three fields as
    /// written.
    pub open spec fn signed_part(self) -> Seq<u8> {
        self.subject + seq![DOT] + decimal(self.issued_at as nat) + seq![DOT] + decimal(
            self.expires_at as nat,
        )
    }

    /// The credential as written.
    pub open spec fn encode(self) -> Seq<u8> {
        self.signed_part() + seq![DOT] + self.signature
    }
}

/// Whether `token` is some credential as written.
pub open spec fn is_token(token: Seq<u8>) -> bool {
    exists|c: CredentialView| c.wf() && #[trigger] c.encode() == token
}

/// The credential that the token `token` writes.
pub open spec fn credential_of(token: Seq<u8>) -> CredentialView {
    choose|c: CredentialView| c.wf() && #[trigger] c.encode() == token
}

/// Position of the first dot of `s` at or after `from`, or the length of `s`
/// if there is none.
spec fn next_dot(s: Seq<u8>, from: int) -> int
    decreases s.len() - from,
{
    if from >= s.len() {
        s.len() as int
    } else if s[from] == DOT {
        from
    } else {
        next_dot(s, from + 1)
    }
}

proof fn lemma_next_dot(s: Seq<u8>, from: int)
    requires
        0 <= from,
    ensures
        next_dot(s, from) <= s.len(),
        from <= s.len() ==> from <= next_dot(s, from),
        forall|i: int| from <= i < next_dot(s, from) ==> s[i] != DOT,
        next_dot(s, from) < s.len() ==> s[next_dot(s, from)] == DOT,
    decreases s.len() - from,
{
    if from < s.len() && s[from] != DOT {
        lemma_next_dot(s, from + 1);
    }
}

proof fn lemma_next_dot_is(s: Seq<u8>, from: int, at: int)
    requires
        0 <= from <= at < s.len(),
        forall|i: int| from <= i < at ==> s[i] != DOT,
        s[at] == DOT,
    ensures
        next_dot(s, from) == at,
    decreases at - from,
{
    if from < at {
        lemma_next_dot_is(s, from + 1, at);
    }
}

/// The credential that `t` writes, field by field.
spec fn read(t: Seq<u8>) -> Option<CredentialView> {
    let d1 = next_dot(t, 0);
    let d2 = next_dot(t, d1 + 1);
    let d3 = next_dot(t, d2 + 1);
    let subject = t.subrange(0, d1);
    let issued = t.subrange(d1 + 1, d2);
    let expires = t.subrange(d2 + 1, d3);
    let signature = t.subrange(d3 + 1, t.len() as int);
    if d3 < t.len() && is_subject(subject) && is_decimal(issued) && decimal_value(issued)
        <= u64::MAX && is_decimal(expires) && decimal_value(expires) <= u64::MAX
        && signature.len() == 64 {
        Some(
            CredentialView {
                subject,
                issued_at: decimal_value(issued) as u64,
                expires_at: decimal_value(expires) as u64,
                signature,
            },
        )
    } else {
        None
    }
}

proof fn lemma_read_sound(t: Seq<u8>)
    requires
        read(t) is Some,
    ensures
        read(t)->0.wf(),
        read(t)->0.encode() == t,
{
    let d1 = next_dot(t, 0);
    let d2 = next_dot(t, d1 + 1);
    let d3 = next_dot(t, d2 + 1);
    lemma_next_dot(t, 0);
    lemma_next_dot(t, d1 + 1);
    lemma_next_dot(t, d2 + 1);
    let c = read(t)->0;
    let issued = t.subrange(d1 + 1, d2);
    let expires = t.subrange(d2 + 1, d3);
    let signature = t.subrange(d3 + 1, t.len() as int);
    assert(decimal(c.issued_at as nat) == issued) by {
        lemma_decimal_is_canonical(issued);
    }
    assert(decimal(c.expires_at as nat) == expires) by {
        lemma_decimal_is_canonical(expires);
    }
    assert(c.subject + seq![DOT] =~= t.subrange(0, d1 + 1));
    assert(t.subrange(0, d1 + 1) + issued =~= t.subrange(0, d2));
    assert(t.subrange(0, d2) + seq![DOT] =~= t.subrange(0, d2 + 1));
    assert(t.subrange(0, d2 + 1) + expires =~= t.subrange(0, d3));
    assert(c.signed_part() == t.subrange(0, d3));
    assert(t.subrange(0, d3) + seq![DOT] =~= t.subrange(0, d3 + 1));
    assert(t.subrange(0, d3 + 1) + signature =~= t);
}

proof fn lemma_read_complete(c: CredentialView)
    requires
        c.wf(),
    ensures
        read(c.encode()) == Some(c),
{
    let t = c.encode();
    let issued = decimal(c.issued_at as nat);
    let expires = decimal(c.expires_at as nat);
    let signature = c.signature;
    lemma_decimal_reads_back(c.issued_at as nat);
    lemma_decimal_reads_back(c.expires_at as nat);
    let d1 = c.subject.len() as int;
    let d2 = d1 + 1 + issued.len();
    let d3 = d2 + 1 + expires.len();
    assert(t.len() == d3 + 1 + signature.len());
    assert forall|i: int| 0 <= i < d1 implies t[i] != DOT by {
        assert(t[i] == c.subject[i]);
    }
    assert(t[d1] == DOT);
    lemma_next_dot_is(t, 0, d1);
    assert forall|i: int| d1 + 1 <= i < d2 implies t[i] != DOT by {
        assert(t[i] == issued[i - d1 - 1]);
    }
    assert(t[d2] == DOT);
    lemma_next_dot_is(t, d1 + 1, d2);
    assert forall|i: int| d2 + 1 <= i < d3 implies t[i] != DOT by {
        assert(t[i] == expires[i - d2 - 1]);
    }
    assert(t[d3] == DOT);
    lemma_next_dot_is(t, d2 + 1, d3);
    assert(t.subrange(0, d1) =~= c.subject);
    assert(t.subrange(d1 + 1, d2) =~= issued);
    assert(t.subrange(d2 + 1, d3) =~= expires);
    assert(t.subrange(d3 + 1, t.len() as int) =~= signature);
}

/// A credential has one spelling, and a spelling one credential.
pub proof fn law_encoding_is_injective(a: CredentialView, b: CredentialView)
    requires
        a.wf(),
        b.wf(),
        a.encode() == b.encode(),
    ensures
        a == b,
{
    lemma_read_complete(a);
    lemma_read_complete(b);
}

/// What a well-formed credential writes is a token, and the token's
/// credential is that one.
pub proof fn lemma_credential_of(c: CredentialView)
    requires
        c.wf(),
    ensures
        is_token(c.encode()),
        credential_of(c.encode()) == c,
{
    law_encoding_is_injective(c, credential_of(c.encode()));
}

/// Whether `b` may stand in a subject.
fn subject_byte(b: u8) -> (ok: bool)
    ensures
        ok == is_subject_byte(b),
{
    (48 <= b && b <= 57) || (65 <= b && b <= 90) || (97 <= b && b <= 122) || b == 45 || b == 95
}

/// Whether `s` is a subject.
pub fn check_subject(s: &[u8]) -> (ok: bool)
    ensures
        ok == is_subject(s@),
{
    if s.len() == 0 {
        return false;
    }
    let mut i: usize = 0;
    while i < s.len()
        invariant
            0 <= i <= s@.len(),
            forall|j: int| 0 <= j < i ==> is_subject_byte(#[trigger] s@[j]),
        decreases s@.len() - i,
    {
        if !subject_byte(s[i]) {
            return false;
        }
        i += 1;
    }
    true
}

/// Position of the first dot of `s` at or after `from`, or the length of `s`.
fn scan_dot(s: &[u8], from: usize) -> (at: usize)
    requires
        from <= s@.len(),
    ensures
        at == next_dot(s@, from as int),
        from <= at <= s@.len(),
{
    let mut i: usize = from;
    while i < s.len() && s[i] != DOT
        invariant
            from <= i <= s@.len(),
            next_dot(s@, from as int) == next_dot(s@, i as int),
        decreases s@.len() - i,
    {
        i += 1;
    }
    i
}

/// Appends `bytes` to `out`.
fn push_bytes(out: &mut Vec<u8>, bytes: &[u8])
    ensures
        final(out)@ == old(out)@ + bytes@,
{
    let mut i: usize = 0;
    while i < bytes.len()
        invariant
            0 <= i <= bytes@.len(),
            out@ == old(out)@ + bytes@.take(i as int),
        decreases bytes@.len() - i,
    {
        out.push(bytes[i]);
        proof {
            assert(bytes@.take(i + 1) =~= bytes@.take(i as int).push(bytes@[i as int]));
            assert(out@ =~= old(out)@ + bytes@.take(i + 1));
        }
        i += 1;
    }
    proof {
        assert(bytes@.take(bytes@.len() as int) =~= bytes@);
    }
}

/// Appends the bytes that a signature over `subject`, `issued_at` and
/// `expires_at` covers.
fn push_signed_part(out: &mut Vec<u8>, subject: &[u8], issued_at: u64, expires_at: u64)
    ensures
        final(out)@ == old(out)@ + subject@ + seq![DOT] + decimal(issued_at as nat) + seq![DOT]
            + decimal(expires_at as nat),
{
    push_bytes(out, subject);
    out.push(DOT);
    push_decimal(out, issued_at);
    out.push(DOT);
    push_decimal(out, expires_at);
    proof {
        assert(final(out)@ =~= old(out)@ + subject@ + seq![DOT] + decimal(issued_at as nat)
            + seq![DOT] + decimal(expires_at as nat));
    }
}

/// The bytes that a signature over `subject`, `issued_at` and `expires_at`
/// covers.
pub fn signed_bytes(subject: &[u8], issued_at: u64, expires_at: u64) -> (bytes: Vec<u8>)
    ensures
        bytes@ == subject@ + seq![DOT] + decimal(issued_at as nat) + seq![DOT] + decimal(
            expires_at as nat,
        ),
{
    let mut out: Vec<u8> = Vec::new();
    push_signed_part(&mut out, subject, issued_at, expires_at);
    proof {
        assert(Seq::<u8>::empty() + subject@ =~= subject@);
    }
    out
}

impl Credential {
    /// The bytes that the signature covers.
    pub fn signed_part(&self) -> (bytes: Vec<u8>)
        ensures
            bytes@ == self@.signed_part(),
    {
        signed_bytes(self.subject.as_slice(), self.issued_at, self.expires_at)
    }

    /// The credential as written.
    pub fn encode(&self) -> (token: Vec<u8>)
        ensures
            token@ == self@.encode(),
    {
        let mut out = self.signed_part();
        out.push(DOT);
        push_bytes(&mut out, self.signature.as_slice());
        out
    }

    /// Reads `token` as a credential. It is one exactly when it is some
    /// well-formed credential as written, and then it is that credential.
    pub fn parse(token: &[u8]) -> (credential: Option<Credential>)
        ensures
            credential is Some <==> is_token(token@),
            credential matches Some(c) ==> c@.wf() && c@.encode() == token@,
    {
        let found = Self::read_fields(token);
        proof {
            if read(token@) is Some {
                lemma_read_sound(token@);
            } else {
                assert forall|c: CredentialView| c.wf() implies #[trigger] c.encode()
                    != token@ by {
                    lemma_read_complete(c);
                }
            }
        }
        found
    }

    fn read_fields(token: &[u8]) -> (credential: Option<Credential>)
        ensures
            credential is Some <==> read(token@) is Some,
            credential matches Some(c) ==> Some(c@) == read(token@),
    {
        let n = token.len();
        let d1 = scan_dot(token, 0);
        if d1 >= n {
            proof {
                lemma_next_dot(token@, n + 1);
            }
            return None;
        }
        let d2 = scan_dot(token, d1 + 1);
        if d2 >= n {
            proof {
                lemma_next_dot(token@, n + 1);
            }
            return None;
        }
        let d3 = scan_dot(token, d2 + 1);
        if d3 >= n {
            return None;
        }
        let subject = slice_subrange(token, 0, d1);
        if !check_subject(subject) {
            return None;
        }
        let issued_at = match parse_decimal(slice_subrange(token, d1 + 1, d2)) {
            Some(v) => v,
            None => {
                return None;
            },
        };
        let expires_at = match parse_decimal(slice_subrange(token, d2 + 1, d3)) {
            Some(v) => v,
            None => {
                return None;
            },
        };
        let signature = slice_subrange(token, d3 + 1, n);
        if signature.len() != SIGNATURE_LEN {
            return None;
        }
        Some(
            Credential {
                subject: slice_to_vec(subject),
                issued_at,
                expires_at,
                signature: slice_to_vec(signature),
            },
        )
    }
}

} // verus!
