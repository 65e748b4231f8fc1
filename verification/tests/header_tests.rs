use autocrypt::errors::{HeaderParseError, RequiredAttribute};
use autocrypt::header::{format_header, parse_header, Header};
use autocrypt::types::{EncryptPreference, KeyType};

fn keydata() -> String {
    "mDMEWFUX7RYJKwYBBAHaRw8BAQdACHq6FkRGsHqBMsNpD7d+Q2jtxVwTO+Y4NhBaQyHaMj+0HWFsaWNlQHRlc3RzdWl0ZS5hdXRvY3J5cHQub3JniJAEExYIADgWIQQmqmdR/XZoxC+kkkr8dE2p/nPD1AUCWFUX7QIbAwULCQgHAgYVCAkKCwIEFgIDAQIeAQIXgAAKCRD8dE2p/nPD1EqOAP0WUDKwko001X7XTSYbWGWmXfR9P1Aw6917EnkVQMsp3gEA86Ii8ArL3jd+E2qS5JSysx/qiVhuTSwWzmC5K6zKdg+4OARYVRfuEgorBgEEAZdVAQUBAQdAv1A88FoCfwz0zSh6NNnUuKuz1p3ctJ3kXMGotsVYjA0DAQgHiHgEGBYIACAWIQQmqmdR/XZoxC+kkkr8dE2p/nPD1AUCWFUX7gIbDAAKCRD8dE2p/nPD1FTOAP4nS14sX7a/nBXBKWAh/oX8iVtkhmZqjy9tG21BcNqb+wEAq73H4+1ncnkscR3Nu4GYzNRSD3NXq68tEESK28kYvw4=".to_string()
}

#[test]
fn test_to_string() {
    let h = Header::new(
        "me@mail.com".to_string(),
        KeyType::OpenPGP,
        EncryptPreference::Mutual,
        keydata(),
        Vec::new(),
    );

    assert_eq!(
        format_header(&h),
        format!(
            "addr=me@mail.com; type=1; prefer-encrypt=mutual; keydata={}",
            keydata()
        )
    );
}

#[test]
fn test_from_str() {
    let h = parse_header("addr=me@mail.com; type=1; prefer-encrypt=mutual; keydata=mykey")
        .expect("failed to parse");

    assert_eq!(h.addr, "me@mail.com");
    assert_eq!(h.typ, KeyType::OpenPGP);
    assert_eq!(h.prefer_encrypt, EncryptPreference::Mutual);
    assert_eq!(h.keydata, "mykey");
}

#[test]
fn test_from_str_minimal() {
    let h = parse_header("addr=me@mail.com; keydata=mykey").expect("failed to parse");

    assert_eq!(h.addr, "me@mail.com");
    assert_eq!(h.typ, KeyType::OpenPGP);
    assert_eq!(h.prefer_encrypt, EncryptPreference::NoPreference);
    assert_eq!(h.keydata, "mykey");
}

#[test]
fn test_from_str_non_critical() {
    let raw = "addr=me@mail.com; _foo=one; _bar=two; keydata=mykey";
    let h = parse_header(raw).expect("failed to parse");

    assert_eq!(h.addr, "me@mail.com");
    assert_eq!(h.typ, KeyType::OpenPGP);
    assert_eq!(h.prefer_encrypt, EncryptPreference::NoPreference);
    assert_eq!(h.keydata, "mykey");
    assert_eq!(h.get("_foo").unwrap(), "one");
    assert_eq!(h.get("_bar").unwrap(), "two");

    assert_eq!(
        format_header(&h),
        "addr=me@mail.com; type=1; prefer-encrypt=nopreference; _bar=two; _foo=one; keydata=mykey"
    );
}

#[test]
fn test_from_str_superflous_critical() {
    let raw = "addr=me@mail.com; _foo=one; _bar=two; other=me; keydata=mykey";
    parse_header(raw).expect_err("should have failed to parse");
}

#[test]
fn defaults_minimal() {
    let h = parse_header("addr=a@b; keydata=k").expect("failed to parse");
    assert_eq!(h.typ, KeyType::OpenPGP);
    assert_eq!(h.prefer_encrypt, EncryptPreference::NoPreference);
}

#[test]
fn extension_ordering() {
    let h = parse_header("addr=a@b; _foo=1; _bar=2; keydata=k").expect("failed to parse");
    assert_eq!(
        format_header(&h),
        "addr=a@b; type=1; prefer-encrypt=nopreference; _bar=2; _foo=1; keydata=k"
    );
}

#[test]
fn round_trip_concrete() {
    let h = Header::new(
        "alice@example.org".to_string(),
        KeyType::Unknown("5".to_string()),
        EncryptPreference::Mutual,
        "AAqq==".to_string(),
        vec![
            ("_z".to_string(), "26".to_string()),
            ("_a".to_string(), "1".to_string()),
        ],
    );
    let again = parse_header(&format_header(&h)).expect("failed to parse");
    assert_eq!(again, h);
}

#[test]
fn missing_addr_rejected() {
    assert_eq!(
        parse_header("keydata=k").unwrap_err(),
        HeaderParseError::MissingCriticalAttribute(RequiredAttribute::Addr)
    );
}

#[test]
fn missing_keydata_rejected() {
    assert_eq!(
        parse_header("addr=a@b; type=1").unwrap_err(),
        HeaderParseError::MissingCriticalAttribute(RequiredAttribute::Keydata)
    );
}

#[test]
fn unknown_critical_rejected_exactly() {
    assert_eq!(
        parse_header("addr=a@b; other=1; keydata=k").unwrap_err(),
        HeaderParseError::UnknownCriticalAttributes
    );
}

#[test]
fn lenient_tokenizer_drops_malformed_segments() {
    let h = parse_header("addr=a@b; garbage; =x; y=; ;; keydata=k").expect("failed to parse");
    assert_eq!(h.addr, "a@b");
    assert_eq!(h.keydata, "k");
}

#[test]
fn duplicate_key_last_wins() {
    let h = parse_header("addr=a@b; addr=c@d; keydata=k; keydata=l").expect("failed to parse");
    assert_eq!(h.addr, "c@d");
    assert_eq!(h.keydata, "l");
}

#[test]
fn unknown_type_token_preserved() {
    let h = parse_header("addr=a@b; type=9; keydata=k").expect("failed to parse");
    assert_eq!(h.typ, KeyType::Unknown("9".to_string()));
    let s = format_header(&h);
    assert_eq!(s, "addr=a@b; type=9; prefer-encrypt=nopreference; keydata=k");
}

#[test]
fn garbage_prefer_encrypt_defaults() {
    let h = parse_header("addr=a@b; prefer-encrypt=sometimes; keydata=k").expect("failed to parse");
    assert_eq!(h.prefer_encrypt, EncryptPreference::NoPreference);
}

#[test]
fn get_absent_key() {
    let h = parse_header("addr=a@b; _x=1; keydata=k").expect("failed to parse");
    assert!(h.get("_y").is_none());
    assert_eq!(h.get("_x").unwrap(), "1");
}

#[test]
fn token_renderings() {
    assert_eq!(KeyType::OpenPGP.to_token(), "1");
    assert_eq!(KeyType::Unknown("p521".to_string()).to_token(), "p521");
    assert_eq!(KeyType::from_token("1"), KeyType::OpenPGP);
    assert_eq!(KeyType::from_token("x"), KeyType::Unknown("x".to_string()));
    assert_eq!(EncryptPreference::Mutual.to_token(), "mutual");
    assert_eq!(EncryptPreference::NoPreference.to_token(), "nopreference");
    assert_eq!(
        EncryptPreference::from_token("mutual"),
        EncryptPreference::Mutual
    );
    assert_eq!(
        EncryptPreference::from_token("whatever"),
        EncryptPreference::NoPreference
    );
}
