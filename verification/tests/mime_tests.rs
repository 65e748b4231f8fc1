use autocrypt::errors::{HeaderParseError, RequiredAttribute};
use autocrypt::mime::{ac_header_from_values, effective_date_from, get_ac_header, get_effective_date, parse};
use time::format_description::well_known::Rfc2822;
use time::OffsetDateTime;

fn rsa2048_simple() -> String {
    "Delivered-To: alice@testsuite.autocrypt.org\n\
     From: alice@testsuite.autocrypt.org\n\
     To: bob@testsuite.autocrypt.org\n\
     Subject: an autocrypt message\n\
     Autocrypt: addr=alice@testsuite.autocrypt.org; keydata=mQENBFi5bMUBCAC3Y9kUvzzs\n\
     Date: Sat, 17 Dec 2016 10:07:48 +0100\n\
     Content-Type: text/plain\n\
     \n\
     plaintext body\n"
        .to_string()
}

fn no_autocrypt() -> String {
    "From: bob@testsuite.autocrypt.org\n\
     To: alice@testsuite.autocrypt.org\n\
     Subject: an ordinary message\n\
     Date: Sat, 17 Dec 2016 10:51:48 +0100\n\
     Content-Type: text/plain\n\
     \n\
     no advertisement in here\n"
        .to_string()
}

#[test]
fn test_parse_simple() {
    let file = rsa2048_simple();
    parse(&file).expect("failed to parse");
}

#[test]
fn test_get_ac_header() {
    let file = rsa2048_simple();
    let mail = parse(&file).expect("failed to parse");

    let header = get_ac_header(&mail).expect("failed to get ac header").unwrap();
    assert_eq!(header.addr, "alice@testsuite.autocrypt.org");
}

#[test]
fn test_get_ac_header_missing() {
    let file = no_autocrypt();
    let mail = parse(&file).expect("failed to parse");

    let header = get_ac_header(&mail).expect("failed to get ac header");
    assert!(header.is_none());
}

#[test]
fn test_get_effective_time() {
    let file = no_autocrypt();
    let mail = parse(&file).expect("failed to parse");

    assert_eq!(
        get_effective_date(&mail),
        OffsetDateTime::parse("Sat, 17 Dec 2016 10:51:48 +0100", &Rfc2822)
            .expect("failed to parse")
            .unix_timestamp()
    );
}

#[test]
fn several_advertisement_headers_rejected() {
    let file = "From: a@b\n\
                Autocrypt: addr=a@b; keydata=k1\n\
                Autocrypt: addr=a@b; keydata=k2\n\
                Date: Sat, 17 Dec 2016 10:07:48 +0100\n\
                \n\
                body\n";
    let mail = parse(file).expect("failed to parse");
    assert_eq!(
        get_ac_header(&mail).unwrap_err(),
        HeaderParseError::TooManyHeaders
    );
}

#[test]
fn effective_date_falls_back_to_now() {
    let file = "From: a@b\nContent-Type: text/plain\n\nundated body\n";
    let mail = parse(file).expect("failed to parse");
    let before = OffsetDateTime::now_utc().unix_timestamp();
    let eff = get_effective_date(&mail);
    let after = OffsetDateTime::now_utc().unix_timestamp();
    assert!(before <= eff && eff <= after);
}

#[test]
fn invalid_date_falls_back_to_now() {
    let file = "From: a@b\nDate: the day before yesterday\n\nbody\n";
    let mail = parse(file).expect("failed to parse");
    let before = OffsetDateTime::now_utc().unix_timestamp();
    let eff = get_effective_date(&mail);
    let after = OffsetDateTime::now_utc().unix_timestamp();
    assert!(before <= eff && eff <= after);
}

#[test]
fn selection_none_is_no_header() {
    assert_eq!(ac_header_from_values(&Vec::new()).unwrap(), None);
}

#[test]
fn selection_single_valid_value() {
    let vals = vec![Some("addr=a@b; keydata=k".to_string())];
    let h = ac_header_from_values(&vals).unwrap().unwrap();
    assert_eq!(h.addr, "a@b");
    assert_eq!(h.keydata, "k");
}

#[test]
fn selection_single_invalid_value_propagates() {
    let vals = vec![Some("addr=a@b".to_string())];
    assert_eq!(
        ac_header_from_values(&vals).unwrap_err(),
        HeaderParseError::MissingCriticalAttribute(RequiredAttribute::Keydata)
    );
}

#[test]
fn selection_two_values_rejected() {
    let vals = vec![
        Some("addr=a@b; keydata=k".to_string()),
        Some("addr=a@b; keydata=l".to_string()),
    ];
    assert_eq!(
        ac_header_from_values(&vals).unwrap_err(),
        HeaderParseError::TooManyHeaders
    );
}

#[test]
fn selection_unreadable_value_rejected() {
    let vals = vec![None];
    assert_eq!(
        ac_header_from_values(&vals).unwrap_err(),
        HeaderParseError::InvalidHeader
    );
}

#[test]
fn effective_date_prefers_parsed() {
    assert_eq!(effective_date_from(Some(5), 9), 5);
    assert_eq!(effective_date_from(None, 9), 9);
}

#[test]
fn encoded_word_values_are_taken_raw() {
    // values shaped like RFC 2047 encoded words are passed through
    // untouched, never decoded
    let file = "From: a@b\n\
                Content-Type: text/plain\n\
                Date: =?a?X?b?=\n\
                Autocrypt: =?x?q?=zz?=\n\
                \n\
                body\n";
    let mail = parse(file).expect("failed to parse");
    assert_eq!(
        get_ac_header(&mail).unwrap_err(),
        HeaderParseError::MissingCriticalAttribute(RequiredAttribute::Addr)
    );
    let before = OffsetDateTime::now_utc().unix_timestamp();
    let eff = get_effective_date(&mail);
    let after = OffsetDateTime::now_utc().unix_timestamp();
    assert!(before <= eff && eff <= after);
}

#[test]
fn malformed_content_type_parameters_are_harmless() {
    // a parameter without `=`, and one ending right at `=`: both must
    // parse and be read raw
    let a = "Content-Type: text/plain; charset\n\
             Date: Sat, 17 Dec 2016 10:51:48 +0100\n\
             \n\
             body\n";
    let mail = parse(a).expect("failed to parse");
    assert_eq!(
        get_effective_date(&mail),
        OffsetDateTime::parse("Sat, 17 Dec 2016 10:51:48 +0100", &Rfc2822)
            .expect("failed to parse")
            .unix_timestamp()
    );

    let b = "Content-Type: text/plain; a=\n\
             Autocrypt: addr=a@b; keydata=k\n\
             \n\
             body\n";
    let mail = parse(b).expect("failed to parse");
    let header = get_ac_header(&mail).expect("failed to get ac header").unwrap();
    assert_eq!(header.addr, "a@b");
}
