use passrs::otp::{HashAlgorithm, HOTPBuilder, TOTPBuilder};
use passrs::otp_cmd::{append_uri, first_valid_uri, generate_totp, generate_totp_at, insert_uri, try_generate_totp};
use passrs::otp_uri::{get_algorithm, get_base32_secret, get_digits, get_period, validate};
use passrs::error::PassrsError;
use passrs::text::IntErrorKind;

const RFC4226_SECRET: &[u8] = b"12345678901234567890";

#[test]
fn hotp_rfc4226_vectors() {
    let expected = [
        "755224", "287082", "359152", "969429", "338314", "254676", "287922", "162583", "399871",
        "520489",
    ];
    for (counter, code) in expected.iter().enumerate() {
        let hotp = HOTPBuilder::default()
            .secret(RFC4226_SECRET)
            .counter(counter as u64)
            .output_len(6)
            .build();
        assert_eq!(hotp.generate(), *code);
    }
}

#[test]
fn hotp_short_and_zero_length_codes() {
    let hotp = HOTPBuilder::default().secret(RFC4226_SECRET).counter(0).output_len(1).build();
    assert_eq!(hotp.generate(), "4");
    let hotp = HOTPBuilder::default().secret(RFC4226_SECRET).counter(0).output_len(0).build();
    assert_eq!(hotp.generate(), "0");
    let hotp = HOTPBuilder::default().secret(RFC4226_SECRET).counter(0).output_len(9).build();
    assert_eq!(hotp.generate(), "284755224");
}

#[test]
fn totp_rfc6238_vectors() {
    let sha1 = b"12345678901234567890".to_vec();
    let sha256 = b"12345678901234567890123456789012".to_vec();
    let sha512 = b"1234567890123456789012345678901234567890123456789012345678901234".to_vec();
    let cases: [(u64, &str, &str, &str); 6] = [
        (59, "94287082", "46119246", "90693936"),
        (1111111109, "07081804", "68084774", "25091201"),
        (1111111111, "14050471", "67062674", "99943326"),
        (1234567890, "89005924", "91819424", "93441116"),
        (2000000000, "69279037", "90698825", "38618901"),
        (20000000000, "65353130", "77737706", "47863826"),
    ];
    for (time, c1, c256, c512) in cases.iter() {
        for (key, algo, code) in [
            (&sha1, HashAlgorithm::Sha1, c1),
            (&sha256, HashAlgorithm::Sha256, c256),
            (&sha512, HashAlgorithm::Sha512, c512),
        ] {
            let totp = TOTPBuilder::default()
                .secret(key)
                .period(30)
                .output_len(8)
                .algorithm(algo)
                .build();
            assert_eq!(totp.generate_at(*time), *code);
        }
    }
}

#[test]
fn totp_timestamp_pins_the_time() {
    let totp = TOTPBuilder::default()
        .secret(RFC4226_SECRET)
        .timestamp_at(59, 1_000_000)
        .period(30)
        .output_len(8)
        .build();
    assert_eq!(totp.generate_at(1_000_000), "94287082");
    assert_eq!(totp.counter_at(1_000_000), 1);
}

#[test]
fn base32_secret_decodes_case_insensitively() {
    // "GEZDGNBVGY3TQOJQGEZDGNBVGY3TQOJQ" is base32 of "12345678901234567890"
    let a = TOTPBuilder::default()
        .base32_secret(b"gezdgnbvgy3tqojqgezdgnbvgy3tqojq")
        .period(30)
        .output_len(8)
        .build();
    assert_eq!(a.generate_at(59), "94287082");
    let mut b = TOTPBuilder::default();
    assert!(!b.try_base32_secret(b"not base32!"));
    assert!(b.try_base32_secret(b"GEZDGNBVGY3TQOJQGEZDGNBVGY3TQOJQ"));
}

#[test]
fn uri_fields() {
    let uri = "otpauth://totp/Example:alice@google.com?secret=JBSWY3DPEHPK3PXP&issuer=Example";
    assert_eq!(get_base32_secret(uri).unwrap(), "JBSWY3DPEHPK3PXP");
    assert_eq!(get_period(uri).unwrap(), 30);
    assert_eq!(get_digits(uri).unwrap(), 6);
    assert_eq!(get_algorithm(uri).unwrap(), HashAlgorithm::Sha1);
    assert!(validate(uri).is_ok());

    let uri = "otpauth://totp/ACME:john?issuer=ACME&algorithm=SHA256&digits=8&period=60&secret=GEZDGNBVGY3TQOJQ";
    assert_eq!(get_base32_secret(uri).unwrap(), "GEZDGNBVGY3TQOJQ");
    assert_eq!(get_period(uri).unwrap(), 60);
    assert_eq!(get_digits(uri).unwrap(), 8);
    assert_eq!(get_algorithm(uri).unwrap(), HashAlgorithm::Sha256);
}

#[test]
fn uri_errors() {
    assert_eq!(get_base32_secret("not a uri"), Err(PassrsError::UriMismatch));
    assert!(validate("otpauth://totp/x?secret=not*base32").is_err());
    assert_eq!(validate("otpauth://totp/x?secret=not*base32"), Err(PassrsError::InvalidKeyUri));
    assert_eq!(
        get_period("otpauth://totp/x?period=abc&secret=A"),
        Err(PassrsError::InvalidNumber(IntErrorKind::InvalidDigit))
    );
    assert_eq!(
        get_period("otpauth://totp/x?period=&secret=A"),
        Err(PassrsError::InvalidNumber(IntErrorKind::Empty))
    );
    assert_eq!(
        get_period("otpauth://totp/x?period=+&secret=A"),
        Err(PassrsError::InvalidNumber(IntErrorKind::InvalidDigit))
    );
    assert_eq!(
        get_period("otpauth://totp/x?period=99999999999999999999x&secret=A"),
        Err(PassrsError::InvalidNumber(IntErrorKind::PosOverflow))
    );
    assert_eq!(
        get_period("otpauth://totp/x?period=18446744073709551615&secret=A"),
        Ok(u64::MAX)
    );
    assert_eq!(get_digits("otpauth://totp/x?digits=+7&secret=A"), Ok(7));
    assert_eq!(
        get_algorithm("otpauth://totp/x?algorithm=MD5&secret=A"),
        Err(PassrsError::InvalidHashAlgorithm("md5".to_string()))
    );
}

#[test]
fn uri_label_backtracks_over_ampersands() {
    // The label may hold '&'; the match backs off until the secret parameter fits.
    let uri = "otpauth://hotp/a&secret=XY";
    assert_eq!(get_base32_secret(uri).unwrap(), "XY");
    // A value may hold '?', so the issuer ends before the last '?'.
    let uri = "otpauth://totp/l?issuer=a?secret=b";
    assert_eq!(get_base32_secret(uri).unwrap(), "b");
    // The match is searched anywhere in the text.
    let uri = "prefix otpauth://totp/l?secret=ABC";
    assert_eq!(get_base32_secret(uri).unwrap(), "ABC");
}

#[test]
fn totp_from_uri() {
    let uri = "otpauth://totp/x?algorithm=SHA1&digits=8&period=30&secret=GEZDGNBVGY3TQOJQGEZDGNBVGY3TQOJQ";
    assert_eq!(generate_totp_at(uri, 59).unwrap(), "94287082");
    assert_eq!(generate_totp(uri).unwrap().len(), 8);
    assert!(try_generate_totp("otpauth://totp/x?period=0&secret=GEZDGNBV").is_none());
    assert!(try_generate_totp("otpauth://totp/x?digits=10&secret=GEZDGNBV").is_none());
    assert!(try_generate_totp("otpauth://totp/x?secret=GEZDGNBV").unwrap().is_ok());
    assert_eq!(try_generate_totp("nothing").unwrap(), Err(PassrsError::UriMismatch));
}

#[test]
fn first_valid_uri_skips_other_lines() {
    let lines = vec![
        "password".to_string(),
        "otpauth://totp/x?secret=!!".to_string(),
        "otpauth://totp/x?secret=GEZDGNBV".to_string(),
        "otpauth://totp/y?secret=GEZDGNBV".to_string(),
    ];
    assert_eq!(first_valid_uri(&lines), Some(2));
    assert_eq!(first_valid_uri(&lines[..2]), None);
}

#[test]
fn uris_from_bare_secrets() {
    assert_eq!(
        append_uri("mail", "ABC", Some("sHa256"), Some(8), Some(60)),
        "otpauth://totp/mail?algorithm=SHA256&digits=8&period=60&secret=ABC"
    );
    assert_eq!(
        append_uri("mail", "ABC", Some("md5"), None, None),
        "otpauth://totp/mail?algorithm=SHA1&secret=ABC"
    );
    assert_eq!(
        insert_uri("mail", "ABC", None, Some(6), None).unwrap(),
        "otpauth://totp/mail?digits=6&secret=ABC"
    );
    assert_eq!(
        insert_uri("mail", "ABC", Some("MD5"), None, None),
        Err(PassrsError::InvalidHashAlgorithm("md5".to_string()))
    );
}

#[test]
fn built_uris_read_back_what_they_were_built_with() {
    let uri = append_uri("web/mail", "GEZDGNBV", Some("sha256"), Some(8), Some(60));
    assert_eq!(uri, "otpauth://totp/web/mail?algorithm=SHA256&digits=8&period=60&secret=GEZDGNBV");
    assert_eq!(get_base32_secret(&uri).unwrap(), "GEZDGNBV");
    assert_eq!(get_period(&uri).unwrap(), 60);
    assert_eq!(get_digits(&uri).unwrap(), 8);
    assert_eq!(get_algorithm(&uri).unwrap(), HashAlgorithm::Sha256);

    let uri = insert_uri("mail", "GEZDGNBV", Some("SHA512"), None, Some(45)).unwrap();
    assert_eq!(get_period(&uri).unwrap(), 45);
    assert_eq!(get_digits(&uri).unwrap(), 6);
    assert_eq!(get_algorithm(&uri).unwrap(), HashAlgorithm::Sha512);

    let uri = append_uri("mail", "GEZDGNBV", None, None, None);
    assert_eq!(uri, "otpauth://totp/mail?secret=GEZDGNBV");
    assert_eq!(get_period(&uri).unwrap(), 30);
    assert_eq!(get_digits(&uri).unwrap(), 6);
    assert_eq!(get_algorithm(&uri).unwrap(), HashAlgorithm::Sha1);
}

#[test]
fn hotp_codes_have_the_asked_length() {
    for digits in 1..=9usize {
        let code = HOTPBuilder::default().secret(RFC4226_SECRET).output_len(digits).counter(7).build().generate();
        assert_eq!(code.len(), digits);
        assert!(code.chars().all(|c| c.is_ascii_digit()));
    }
}

#[test]
fn timestamp_sets_the_time_step() {
    // At the clock reading the timestamp is set at, the code is that of the timestamp's time step.
    let mut builder = TOTPBuilder::default();
    builder.secret(RFC4226_SECRET).period(30).output_len(8);
    let totp = builder.timestamp_at(59, 1_000_000).build();
    let hotp = HOTPBuilder::default().secret(RFC4226_SECRET).output_len(8).counter(1).build();
    assert_eq!(totp.generate_at(1_000_000), hotp.generate());
}

#[test]
fn shorter_hotp_codes_are_the_last_digits_of_longer_ones() {
    let code = |digits: usize| HOTPBuilder::default().secret(RFC4226_SECRET).output_len(digits).counter(3).build().generate();
    let long = code(9);
    for digits in 1..=9usize {
        assert_eq!(code(digits), long[9 - digits..].to_string());
    }
    // RFC 4226, appendix D: counter 3 gives 969429 for six digits.
    assert_eq!(code(6), "969429");
}
