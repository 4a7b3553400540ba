use scrypt::errors::{InvalidOutputLen, InvalidParams};
use scrypt::romix::{scrypt_block_mix, scrypt_ro_mix};
use scrypt::salsa::salsa20_8_core;
use scrypt::{scrypt, ScryptParams};

fn hex(s: &str) -> Vec<u8> {
    let s: String = s.chars().filter(|c| !c.is_whitespace()).collect();
    (0..s.len() / 2)
        .map(|i| u8::from_str_radix(&s[2 * i..2 * i + 2], 16).unwrap())
        .collect()
}

fn derive(password: &[u8], salt: &[u8], log_n: u8, r: u32, p: u32, len: usize) -> Vec<u8> {
    let params = ScryptParams::new(log_n, r, p).unwrap();
    let mut out = vec![0u8; len];
    scrypt(password, salt, &params, &mut out).unwrap();
    out
}

#[test]
fn salsa20_8_known_answer() {
    let input = hex(
        "7e879a214f3ec9867ca940e641718f26baee555b8c61c1b50df846116dcd3b1d
         ee24f319df9b3d8514121e4b5ac5aa3276021d2909c74829edebc68db8b8c25e",
    );
    let expected = hex(
        "a41f859c6608cc993b81cacb020cef05044b2181a2fd337dfd7b1c6396682f29
         b4393168e3c9e6bcfe6bc5b7a06d96bae424cc102c91745c24ad673dc7618f81",
    );
    assert_eq!(salsa20_8_core(&input), expected);
}

#[test]
fn block_mix_known_answer() {
    let input = hex(
        "f7ce0b653d2d72a4108cf5abe912ffdd777616dbbb27a70e8204f3ae2d0f6fad
         89f68f4811d1e87bcc3bd7400a9ffd29094f0184639574f39ae5a1315217bcd7
         894991447213bb226c25b54da86370fbcd984380374666bb8ffcb5bf40c254b0
         67d27c51ce4ad5fed829c90b505a571b7f4d1cad6a523cda770e67bceaaf7e89",
    );
    let expected = hex(
        "a41f859c6608cc993b81cacb020cef05044b2181a2fd337dfd7b1c6396682f29
         b4393168e3c9e6bcfe6bc5b7a06d96bae424cc102c91745c24ad673dc7618f81
         20edc975323881a80540f64c162dcd3c21077cfe5f8d5fe2b1a4168f953678b7
         7d3b3d803b60e4ab920996e59b4d53b65d2a225877d5edf5842cb9f14eefe425",
    );
    assert_eq!(scrypt_block_mix(&input), expected);
}

#[test]
fn block_mix_deinterleaves_sub_blocks() {
    let input: Vec<u8> = (0..256u32).map(|i| (i * 7 + 3) as u8).collect();
    let out = scrypt_block_mix(&input);
    // the chain values, computed by hand from the core
    let mut x = input[192..256].to_vec();
    let mut chain = Vec::new();
    for i in 0..4 {
        let t: Vec<u8> = x.iter().zip(&input[64 * i..64 * i + 64]).map(|(a, b)| a ^ b).collect();
        x = salsa20_8_core(&t);
        chain.push(x.clone());
    }
    assert_eq!(&out[0..64], &chain[0][..]);
    assert_eq!(&out[64..128], &chain[2][..]);
    assert_eq!(&out[128..192], &chain[1][..]);
    assert_eq!(&out[192..256], &chain[3][..]);
}

#[test]
fn ro_mix_known_answer() {
    let input = hex(
        "f7ce0b653d2d72a4108cf5abe912ffdd777616dbbb27a70e8204f3ae2d0f6fad
         89f68f4811d1e87bcc3bd7400a9ffd29094f0184639574f39ae5a1315217bcd7
         894991447213bb226c25b54da86370fbcd984380374666bb8ffcb5bf40c254b0
         67d27c51ce4ad5fed829c90b505a571b7f4d1cad6a523cda770e67bceaaf7e89",
    );
    let expected = hex(
        "79ccc193629debca047f0b70604bf6b62ce3dd4a9626e355fafc6198e6ea2b46
         d58413673b99b029d665c357601fb426a0b2f4bba200ee9f0a43d19b571a9c71
         ef1142e65d5a266fddca832ce59faa7cac0b9cf1be2bffca300d01ee387619c4
         ae12fd4438f203a0e4e1c47ec314861f4e9087cb33396a6873e8f9d2539a4b8e",
    );
    assert_eq!(scrypt_ro_mix(&input, 16), expected);
}

#[test]
fn scrypt_empty_password_vector() {
    let expected = hex(
        "77d6576238657b203b19ca42c18a0497f16b4844e3074ae8dfdffa3fede21442
         fcd0069ded0948f8326a753a0fc81f17e8d3e0fb2e0d3628cf35e20c38d18906",
    );
    assert_eq!(derive(b"", b"", 4, 1, 1, 64), expected);
}

#[test]
fn scrypt_password_nacl_vector() {
    let expected = hex(
        "fdbabe1c9d3472007856e7190d01e9fe7c6ad7cbc8237830e77376634b373162
         2eaf30d92e22a3886ff109279d9830dac727afb94a83ee6d8360cbdfa2cc0640",
    );
    assert_eq!(derive(b"password", b"NaCl", 10, 8, 16, 64), expected);
}

#[test]
fn scrypt_is_deterministic() {
    let a = derive(b"secret", b"salt", 4, 2, 2, 48);
    let b = derive(b"secret", b"salt", 4, 2, 2, 48);
    assert_eq!(a, b);
}

#[test]
fn scrypt_changes_with_one_bit_of_input() {
    let a = derive(b"secret", b"salt", 4, 1, 1, 32);
    assert_ne!(a, derive(b"secreu", b"salt", 4, 1, 1, 32));
    assert_ne!(a, derive(b"secret", b"sals", 4, 1, 1, 32));
}

#[test]
fn scrypt_fills_requested_length() {
    for len in [1usize, 31, 32, 33, 100] {
        assert_eq!(derive(b"pw", b"s", 3, 1, 1, len).len(), len);
    }
    // a shorter key is a prefix of a longer one
    let long = derive(b"pw", b"s", 3, 1, 1, 100);
    assert_eq!(derive(b"pw", b"s", 3, 1, 1, 33), long[..33].to_vec());
}

#[test]
fn scrypt_rejects_empty_output() {
    let params = ScryptParams::new(4, 1, 1).unwrap();
    let mut out: Vec<u8> = Vec::new();
    assert_eq!(scrypt(b"pw", b"s", &params, &mut out), Err(InvalidOutputLen));
}

#[test]
fn params_reject_zero_r_and_p() {
    assert_eq!(ScryptParams::new(10, 0, 1).err(), Some(InvalidParams));
    assert_eq!(ScryptParams::new(10, 8, 0).err(), Some(InvalidParams));
    assert_eq!(ScryptParams::new(0, 0, 0).err(), Some(InvalidParams));
}

#[test]
fn params_reject_overflowing_sizes() {
    // n = 2^63 blocks of 128 bytes cannot be addressed
    assert!(ScryptParams::new(63, 1, 1).is_err());
    // log_n beyond the width of usize
    assert!(ScryptParams::new(64, 1, 1).is_err());
    assert!(ScryptParams::new(255, 1, 1).is_err());
    // p * 128 * r beyond what PBKDF2 can produce
    assert!(ScryptParams::new(1, 1 << 20, 1 << 12).is_err());
}

#[test]
fn params_accept_and_report_values() {
    let params = ScryptParams::new(15, 8, 1).unwrap();
    assert_eq!(params.log_n(), 15);
    assert_eq!(params.r(), 8);
    assert_eq!(params.p(), 1);
    assert_eq!(params.n(), 32768);
    assert_eq!(params.block_len(), 1024);
    let params = ScryptParams::new(1, 300, 2).unwrap();
    assert_eq!((params.log_n(), params.r(), params.p()), (1, 300, 2));
}
