use scrypt::errors::CheckError;
use scrypt::simple::{encode_hash, params_from_fields, split_hash_fields};
use scrypt::{scrypt, scrypt_check, scrypt_simple, ScryptParams};

#[test]
fn simple_hash_checks_against_its_password() {
    let params = ScryptParams::new(4, 1, 1).unwrap();
    let hashed = scrypt_simple("Not so secure password", &params).unwrap();
    assert!(hashed.starts_with("$rscrypt$0$"));
    assert!(hashed.ends_with('$'));
    assert_eq!(scrypt_check("Not so secure password", &hashed), Ok(()));
    assert_eq!(scrypt_check("Not so secure passwore", &hashed), Err(CheckError::HashMismatch));
}

#[test]
fn simple_hash_uses_expanded_format_for_large_r() {
    let params = ScryptParams::new(2, 256, 1).unwrap();
    let hashed = scrypt_simple("pw", &params).unwrap();
    assert!(hashed.starts_with("$rscrypt$1$"));
    assert_eq!(scrypt_check("pw", &hashed), Ok(()));
    assert_eq!(scrypt_check("pW", &hashed), Err(CheckError::HashMismatch));
}

#[test]
fn simple_hashes_use_fresh_salts() {
    let params = ScryptParams::new(3, 1, 1).unwrap();
    let a = scrypt_simple("pw", &params).unwrap();
    let b = scrypt_simple("pw", &params).unwrap();
    assert_ne!(a, b);
}

#[test]
fn encode_hash_exact_text() {
    let params = ScryptParams::new(4, 1, 1).unwrap();
    let s = encode_hash(&params, &[0u8; 16], &[0u8; 32]);
    assert_eq!(
        s,
        "$rscrypt$0$BAEB$AAAAAAAAAAAAAAAAAAAAAA==$AAAAAAAAAAAAAAAAAAAAAAAAAAAAAAAAAAAAAAAAAAA=$"
    );
    let params = ScryptParams::new(1, 256, 2).unwrap();
    let s = encode_hash(&params, &[255u8; 3], &[1u8, 2, 3]);
    // [1, 0, 1, 0, 0, 2, 0, 0, 0]
    assert_eq!(s, "$rscrypt$1$AQABAAACAAAA$////$AQID$");
}

#[test]
fn check_accepts_hand_made_hash() {
    let params = ScryptParams::new(4, 1, 1).unwrap();
    let salt = [7u8; 16];
    let mut dk = [0u8; 32];
    scrypt(b"hunter2", &salt, &params, &mut dk).unwrap();
    let s = encode_hash(&params, &salt, &dk);
    assert_eq!(scrypt_check("hunter2", &s), Ok(()));
}

#[test]
fn check_rejects_malformed_strings() {
    let params = ScryptParams::new(4, 1, 1).unwrap();
    let good = encode_hash(&params, &[7u8; 16], &[9u8; 32]);
    assert_eq!(scrypt_check("x", &good), Err(CheckError::HashMismatch));
    let bad = [
        "",
        "rscrypt$0$BAEB$AAAA$AAAA$",
        "x$rscrypt$0$BAEB$AAAA$AAAA$",
        "$scrypt$0$BAEB$AAAA$AAAA$",
        "$rscrypt$2$BAEB$AAAA$AAAA$",
        "$rscrypt$1$BAEB$AAAA$AAAA$",
        "$rscrypt$0$BAEB$AAAA$AAAA",
        "$rscrypt$0$BAEB$AAAA$AAAA$x",
        "$rscrypt$0$BAEB$AAAA$AAAA$$",
        "$rscrypt$0$BAEB$AAAA$",
        "$rscrypt$0$BAEB$A!AA$AAAA$",
        "$rscrypt$0$BAAB$AAAA$AAAA$",
        "$rscrypt$0$BAEB$AAAA$$",
    ];
    for s in bad.iter() {
        assert_eq!(scrypt_check("x", s), Err(CheckError::InvalidFormat), "{}", s);
    }
}

#[test]
fn split_fields_like_str_split() {
    let f = split_hash_fields(b"$a$$bc$");
    assert_eq!(f, vec![vec![], b"a".to_vec(), vec![], b"bc".to_vec(), vec![]]);
    assert_eq!(split_hash_fields(b""), vec![Vec::<u8>::new()]);
}

#[test]
fn params_from_fields_formats() {
    let p = params_from_fields(b"0", &[10, 8, 1]).unwrap();
    assert_eq!((p.log_n(), p.r(), p.p()), (10, 8, 1));
    let p = params_from_fields(b"1", &[3, 0, 1, 0, 0, 2, 0, 0, 0]).unwrap();
    assert_eq!((p.log_n(), p.r(), p.p()), (3, 256, 2));
    assert!(params_from_fields(b"0", &[10, 0, 1]).is_none());
    assert!(params_from_fields(b"0", &[10, 8, 1, 0]).is_none());
    assert!(params_from_fields(b"1", &[10, 8, 1]).is_none());
    assert!(params_from_fields(b"2", &[10, 8, 1]).is_none());
}
