use portfolio_gate::credential::{check_subject, signed_bytes, Credential};
use portfolio_gate::decimal::{parse_decimal, push_decimal};
use portfolio_gate::hex::{push_hex, to_hex};
use portfolio_gate::verify::{same_bytes, AuthError, CredentialVerifier};

const SECRET: &[u8] = b"portfolio-signing-secret";
const ADMIN_TOKEN: &[u8] =
    b"admin.1000.2000.d32c308104beffe94e3aa128f158a11e9ac89a398dbd24ab2def8969830204fa";

fn keyed() -> CredentialVerifier {
    CredentialVerifier::new(SECRET.to_vec())
}

fn with_byte(token: &[u8], at: usize, byte: u8) -> Vec<u8> {
    let mut changed = token.to_vec();
    changed[at] = byte;
    changed
}

#[test]
fn decimal_is_written_without_leading_zeros() {
    let mut out = b"x".to_vec();
    push_decimal(&mut out, 0);
    push_decimal(&mut out, 7);
    push_decimal(&mut out, 1000);
    push_decimal(&mut out, u64::MAX);
    assert_eq!(out, b"x07100018446744073709551615".to_vec());
}

#[test]
fn decimal_is_read_strictly() {
    assert_eq!(parse_decimal(b"0"), Some(0));
    assert_eq!(parse_decimal(b"9"), Some(9));
    assert_eq!(parse_decimal(b"1000"), Some(1000));
    assert_eq!(parse_decimal(b"18446744073709551615"), Some(u64::MAX));
    assert_eq!(parse_decimal(b"18446744073709551616"), None);
    assert_eq!(parse_decimal(b"99999999999999999999999"), None);
    assert_eq!(parse_decimal(b""), None);
    assert_eq!(parse_decimal(b"00"), None);
    assert_eq!(parse_decimal(b"01"), None);
    assert_eq!(parse_decimal(b"+1"), None);
    assert_eq!(parse_decimal(b"1 "), None);
    assert_eq!(parse_decimal(b"12a"), None);
}

#[test]
fn hex_is_written_in_lowercase() {
    let mut out = Vec::new();
    push_hex(&mut out, &[0x00, 0x0f, 0xa0, 0xff, 0x9a]);
    assert_eq!(out, b"000fa0ff9a".to_vec());
}

#[test]
fn hex_has_two_digits_a_byte() {
    assert_eq!(to_hex(&[]), Vec::<u8>::new());
    assert_eq!(to_hex(&[0x00]), b"00".to_vec());
    assert_eq!(to_hex(&[0x12, 0xab, 0xcd, 0xef]), b"12abcdef".to_vec());
    assert_eq!(to_hex(&[0xff; 32]).len(), 64);
}

#[test]
fn subjects_are_plain_names() {
    assert!(check_subject(b"admin"));
    assert!(check_subject(b"user_1-A"));
    assert!(check_subject(b"0"));
    assert!(!check_subject(b""));
    assert!(!check_subject(b"a.b"));
    assert!(!check_subject(b"a b"));
    assert!(!check_subject(b"a@b"));
    assert!(!check_subject("né".as_bytes()));
}

#[test]
fn signed_part_is_the_first_three_fields() {
    assert_eq!(signed_bytes(b"admin", 1000, 2000), b"admin.1000.2000".to_vec());
    assert_eq!(signed_bytes(b"a", 0, u64::MAX), b"a.0.18446744073709551615".to_vec());
}

#[test]
fn token_reads_as_its_credential_and_writes_back() {
    let credential = Credential::parse(ADMIN_TOKEN).expect("a credential");
    assert_eq!(credential.subject, b"admin".to_vec());
    assert_eq!(credential.issued_at, 1000);
    assert_eq!(credential.expires_at, 2000);
    assert_eq!(
        credential.signature,
        b"d32c308104beffe94e3aa128f158a11e9ac89a398dbd24ab2def8969830204fa".to_vec()
    );
    assert_eq!(credential.signed_part(), b"admin.1000.2000".to_vec());
    assert_eq!(credential.encode(), ADMIN_TOKEN.to_vec());
}

#[test]
fn tokens_with_another_shape_are_not_credentials() {
    let sig = "d32c308104beffe94e3aa128f158a11e9ac89a398dbd24ab2def8969830204fa";
    let cases = [
        String::new(),
        String::from("admin"),
        String::from("admin.1000.2000"),
        format!("admin.1000.2000.{}", &sig[..62]),
        format!("admin.1000.2000.{}00", sig),
        format!(".1000.2000.{}", sig),
        format!("ad min.1000.2000.{}", sig),
        format!("admin.01000.2000.{}", sig),
        format!("admin.1000.-2000.{}", sig),
        format!("admin.1000..{}", sig),
        format!("admin.1000.18446744073709551616.{}", sig),
        format!("admin.1000.2000.{}.", sig),
        format!("admin.1000.2000.extra.{}", sig),
        format!(" admin.1000.2000.{}", sig),
        format!("admin.1000.2000.{} ", sig),
    ];
    for case in cases {
        assert_eq!(Credential::parse(case.as_bytes()), None, "{}", case);
        assert_eq!(keyed().verify(case.as_bytes(), 1500), Err(AuthError::Malformed), "{}", case);
    }
}

#[test]
fn signature_field_of_the_right_length_is_read_whatever_it_holds() {
    let sig = "d32c308104beffe94e3aa128f158a11e9ac89a398dbd24ab2def8969830204fa";
    let fields = [
        sig.to_uppercase().into_bytes(),
        vec![b'.'; 64],
        vec![b' '; 64],
        vec![0u8; 64],
        vec![0xffu8; 64],
        vec![b'g'; 64],
    ];
    for field in fields {
        let token = [b"admin.1000.2000.".as_slice(), field.as_slice()].concat();
        let credential = Credential::parse(&token).expect("a credential");
        assert_eq!(credential.subject, b"admin".to_vec());
        assert_eq!(credential.issued_at, 1000);
        assert_eq!(credential.expires_at, 2000);
        assert_eq!(credential.signature, field);
        assert_eq!(credential.encode(), token);
        assert_eq!(keyed().verify(&token, 1500), Err(AuthError::BadSignature));
        assert_eq!(keyed().verify(&token, 999), Err(AuthError::BadSignature));
        assert_eq!(keyed().verify(&token, 2000), Err(AuthError::Expired));
    }
}

#[test]
fn same_bytes_compares_whole_slices() {
    assert!(same_bytes(b"", b""));
    assert!(same_bytes(b"abc", b"abc"));
    assert!(!same_bytes(b"abc", b"abd"));
    assert!(!same_bytes(b"abc", b"bbc"));
    assert!(!same_bytes(b"abc", b"ab"));
    assert!(!same_bytes(b"", b"a"));
    assert!(!same_bytes(&[0x00], &[0x80]));
}

#[test]
fn known_token_verifies_within_its_validity() {
    assert_eq!(keyed().verify(ADMIN_TOKEN, 1000), Ok(b"admin".to_vec()));
    assert_eq!(keyed().verify(ADMIN_TOKEN, 1500), Ok(b"admin".to_vec()));
    assert_eq!(keyed().verify(ADMIN_TOKEN, 1999), Ok(b"admin".to_vec()));
}

#[test]
fn known_tokens_of_other_secrets_verify() {
    let empty = CredentialVerifier::new(Vec::new());
    let token = b"a.0.1.dce00c73042cc51dcf0afe74a60959225c728cd8b74f8f4d23690286072ab856";
    assert_eq!(empty.verify(token, 0), Ok(b"a".to_vec()));
    let long = CredentialVerifier::new(vec![b'k'; 100]);
    let token: &[u8] = b"user_1-A.0.18446744073709551615.38a79e2023795adfa2da48a7e32c1a62cec22dc4d08e4e8b9eb0297494c5643f";
    assert_eq!(long.verify(token, 0), Ok(b"user_1-A".to_vec()));
    assert_eq!(long.verify(token, u64::MAX - 1), Ok(b"user_1-A".to_vec()));
    assert_eq!(long.verify(token, u64::MAX), Err(AuthError::Expired));
}

#[test]
fn issue_writes_the_known_token() {
    assert_eq!(keyed().issue(b"admin", 1000, 2000), Some(ADMIN_TOKEN.to_vec()));
    assert_eq!(keyed().issue(b"", 1000, 2000), None);
    assert_eq!(keyed().issue(b"ad.min", 1000, 2000), None);
}

#[test]
fn issued_token_verifies_and_names_its_subject() {
    let v = CredentialVerifier::new(b"another secret".to_vec());
    let token = v.issue(b"owner-7", 5, 50).expect("a subject");
    assert_eq!(v.verify(&token, 5), Ok(b"owner-7".to_vec()));
    assert_eq!(v.verify(&token, 49), Ok(b"owner-7".to_vec()));
    assert_eq!(v.verify(&token, 4), Err(AuthError::NotYetValid));
    assert_eq!(v.verify(&token, 50), Err(AuthError::Expired));
}

#[test]
fn verifying_twice_gives_the_same_subject() {
    let v = keyed();
    let first = v.verify(ADMIN_TOKEN, 1200);
    let second = v.verify(ADMIN_TOKEN, 1200);
    assert_eq!(first, Ok(b"admin".to_vec()));
    assert_eq!(second, first);
    assert_eq!(v.verify(ADMIN_TOKEN, 1900), first);
}

#[test]
fn token_signed_with_another_secret_has_a_bad_signature() {
    let other = CredentialVerifier::new(b"not the secret".to_vec());
    assert_eq!(other.verify(ADMIN_TOKEN, 1500), Err(AuthError::BadSignature));
}

#[test]
fn every_changed_signature_byte_is_a_bad_signature() {
    let v = keyed();
    let start = ADMIN_TOKEN.len() - 64;
    for at in start..ADMIN_TOKEN.len() {
        for byte in 0..=255u8 {
            if byte == ADMIN_TOKEN[at] {
                continue;
            }
            let changed = with_byte(ADMIN_TOKEN, at, byte);
            assert_eq!(v.verify(&changed, 1000), Err(AuthError::BadSignature));
            assert_eq!(v.verify(&changed, 1999), Err(AuthError::BadSignature));
        }
    }
}

#[test]
fn changed_payload_never_verifies() {
    let v = keyed();
    let payload = ADMIN_TOKEN.len() - 65;
    for at in 0..payload {
        for bit in 0..8 {
            let changed = with_byte(ADMIN_TOKEN, at, ADMIN_TOKEN[at] ^ (1 << bit));
            let res = v.verify(&changed, 1500);
            assert!(res.is_err(), "{:?}", changed);
        }
    }
    let longer: &[u8] =
        b"admin.1000.20000.d32c308104beffe94e3aa128f158a11e9ac89a398dbd24ab2def8969830204fa";
    assert_eq!(v.verify(longer, 1500), Err(AuthError::BadSignature));
}

#[test]
fn expired_token_is_expired_whatever_its_signature() {
    let v = keyed();
    assert_eq!(v.verify(ADMIN_TOKEN, 2000), Err(AuthError::Expired));
    assert_eq!(v.verify(ADMIN_TOKEN, u64::MAX), Err(AuthError::Expired));
    let forged = with_byte(ADMIN_TOKEN, ADMIN_TOKEN.len() - 1, b'0');
    assert_eq!(v.verify(&forged, 1999), Err(AuthError::BadSignature));
    assert_eq!(v.verify(&forged, 2000), Err(AuthError::Expired));
    let unreadable = with_byte(ADMIN_TOKEN, ADMIN_TOKEN.len() - 1, b'?');
    assert_eq!(v.verify(&unreadable, 1999), Err(AuthError::BadSignature));
    assert_eq!(v.verify(&unreadable, 2000), Err(AuthError::Expired));
    assert_eq!(v.verify(&unreadable, u64::MAX), Err(AuthError::Expired));
}

#[test]
fn token_from_the_future_is_not_yet_valid() {
    let v = keyed();
    assert_eq!(v.verify(ADMIN_TOKEN, 999), Err(AuthError::NotYetValid));
    assert_eq!(v.verify(ADMIN_TOKEN, 0), Err(AuthError::NotYetValid));
    // An issuance time that is not signed is not believed.
    let forged = with_byte(ADMIN_TOKEN, ADMIN_TOKEN.len() - 1, b'0');
    assert_eq!(v.verify(&forged, 999), Err(AuthError::BadSignature));
    assert_eq!(v.verify(&forged, 0), Err(AuthError::BadSignature));
    // Issued after it expires: expiry is judged first.
    let token = v.issue(b"admin", 300, 200).expect("a subject");
    assert_eq!(v.verify(&token, 100), Err(AuthError::NotYetValid));
    assert_eq!(v.verify(&token, 250), Err(AuthError::Expired));
    assert_eq!(v.verify(&token, 400), Err(AuthError::Expired));
}

#[test]
fn header_must_be_bearer_space_token() {
    let v = keyed();
    let good = [b"Bearer ".as_slice(), ADMIN_TOKEN].concat();
    assert_eq!(v.authenticate(Some(&good), 1500), Ok(b"admin".to_vec()));
    assert_eq!(v.authenticate(None, 1500), Err(AuthError::Missing));
    assert_eq!(v.authenticate(Some(b""), 1500), Err(AuthError::Missing));
    assert_eq!(v.authenticate(Some(b"Bearer"), 1500), Err(AuthError::Missing));
    assert_eq!(v.authenticate(Some(ADMIN_TOKEN), 1500), Err(AuthError::Missing));
    let lower = [b"bearer ".as_slice(), ADMIN_TOKEN].concat();
    assert_eq!(v.authenticate(Some(&lower), 1500), Err(AuthError::Missing));
    let basic = [b"Basic ".as_slice(), ADMIN_TOKEN].concat();
    assert_eq!(v.authenticate(Some(&basic), 1500), Err(AuthError::Missing));
    let tab = [b"Bearer\t".as_slice(), ADMIN_TOKEN].concat();
    assert_eq!(v.authenticate(Some(&tab), 1500), Err(AuthError::Missing));
    assert_eq!(v.authenticate(Some(b"Bearer "), 1500), Err(AuthError::Malformed));
    let two_spaces = [b"Bearer  ".as_slice(), ADMIN_TOKEN].concat();
    assert_eq!(v.authenticate(Some(&two_spaces), 1500), Err(AuthError::Malformed));
    let trailing = [b"Bearer ".as_slice(), ADMIN_TOKEN, b" "].concat();
    assert_eq!(v.authenticate(Some(&trailing), 1500), Err(AuthError::Malformed));
    assert_eq!(v.authenticate(Some(&good), 2000), Err(AuthError::Expired));
}

#[test]
fn each_reason_has_its_message() {
    assert_eq!(AuthError::Missing.message(), "Missing bearer credential");
    assert_eq!(AuthError::Malformed.message(), "Malformed credential");
    assert_eq!(AuthError::BadSignature.message(), "Invalid credential signature");
    assert_eq!(AuthError::Expired.message(), "Credential has expired");
    assert_eq!(AuthError::NotYetValid.message(), "Credential is not yet valid");
}
