use autocrypt::errors::{HeaderParseError, PeerInfoParseError, RequiredAttribute};
use autocrypt::header::{parse_header, Header};
use autocrypt::mime;
use autocrypt::peer::{gate_advertisement, PeerInfo, PeerState, FOUR_WEEKS_SECS};
use autocrypt::types::{KeyType, Recommendation};
use time::format_description::well_known::Rfc2822;
use time::OffsetDateTime;

fn now_secs() -> i64 {
    OffsetDateTime::now_utc().unix_timestamp()
}

fn date_secs(s: &str) -> i64 {
    OffsetDateTime::parse(s, &Rfc2822)
        .expect("failed to parse")
        .unix_timestamp()
}

const DAY_SECS: i64 = 86400;

#[test]
fn test_update_report() {
    let mut p1 = PeerInfo::new(now_secs(), None, None, None);
    let file = "Content-Type: multipart/report\nDate: Sat, 17 Dec 2016 10:07:48 +0100\n\nreport body\n";
    let mail = mime::parse(file).expect("failed to parse");
    let before = p1.clone();
    p1.update(&mail).expect("failed to update");
    assert_eq!(before, p1);
}

#[test]
fn test_update_with_ac() {
    let mut p1 = PeerInfo::new(now_secs(), None, None, None);
    let file = "Content-Type: text/plain\n\
                Date: Sat, 17 Dec 2016 10:07:48 +0100\n\
                Autocrypt: addr=alice@testsuite.autocrypt.org; keydata=mDMEWFUX7Q==\n\
                \n\
                hello\n";
    let mail = mime::parse(file).expect("failed to parse");
    p1.update(&mail).expect("failed to update");
    assert_eq!(
        p1.last_seen_autocrypt.unwrap(),
        date_secs("Sat, 17 Dec 2016 10:07:48 +0100")
    );
    assert!(p1.public_key.is_some());
    assert_eq!(p1.state, PeerState::NoPreference);
}

#[test]
fn test_update_without_ac() {
    let start: i64 = 1234567890;

    let mut p1 = PeerInfo::new(start, None, None, None);
    let file = "Content-Type: text/plain\n\
                Date: Sat, 17 Dec 2016 10:51:48 +0100\n\
                \n\
                no advertisement here\n";
    let mail = mime::parse(file).expect("failed to parse");
    p1.update(&mail).expect("failed to update");
    assert_eq!(p1.last_seen, date_secs("Sat, 17 Dec 2016 10:51:48 +0100"));
    assert!(p1.last_seen_autocrypt.is_none());
    assert!(p1.public_key.is_none());
    assert_eq!(p1.state, PeerState::Reset);
}

#[test]
fn test_recommendation() {
    let now = now_secs();
    let p1 = PeerInfo::new(now, None, None, None);
    let p2 = PeerInfo::new(
        now,
        None,
        Some("mypublickey".to_string()),
        Some(PeerState::Gossip),
    );
    let p3 = PeerInfo::new(
        now,
        None,
        Some("pubkey".to_string()),
        Some(PeerState::Mutual),
    );
    let p4 = PeerInfo::new(
        now,
        Some(now - 100 * DAY_SECS),
        Some("pubkey".to_string()),
        Some(PeerState::Reset),
    );

    // No to public key
    assert_eq!(p2.recommendation(&p1, now), Recommendation::Disable);

    // both states are mutual
    assert_eq!(p3.recommendation(&p3, now), Recommendation::Encrypt);

    // to state is gossip
    assert_eq!(p1.recommendation(&p2, now), Recommendation::Discourage);

    // reset and older than a month
    assert_eq!(p3.recommendation(&p4, now), Recommendation::Discourage);
}

#[test]
fn test_recommendation_many() {
    let now = now_secs();
    let from = PeerInfo::new(
        now,
        Some(now),
        Some("mypublickey".to_string()),
        Some(PeerState::Mutual),
    );
    let to1 = PeerInfo::new(
        now,
        Some(now),
        Some("mypublickey".to_string()),
        Some(PeerState::Mutual),
    );
    let to2 = PeerInfo::new(
        now,
        Some(now),
        Some("mypublickey".to_string()),
        Some(PeerState::Mutual),
    );
    assert_eq!(
        from.recommendation_many(vec![&to1, &to2], now),
        Recommendation::Encrypt
    );
}

fn mutual_header() -> Header {
    parse_header("addr=a@b; prefer-encrypt=mutual; keydata=k1").expect("failed to parse")
}

fn plain_header() -> Header {
    parse_header("addr=a@b; keydata=k2").expect("failed to parse")
}

#[test]
fn stale_message_changes_nothing() {
    let mut p = PeerInfo::new(
        2000,
        Some(1500),
        Some("old".to_string()),
        Some(PeerState::Mutual),
    );
    let before = p.clone();
    p.apply_message("text/plain", 1499, Some(mutual_header()));
    assert_eq!(p, before);
    p.apply_message("text/plain", 1499, None);
    assert_eq!(p, before);
}

#[test]
fn reset_on_missing_advertisement() {
    let mut p = PeerInfo::new(1000, None, None, None);
    p.apply_message("text/plain", 1001, None);
    assert_eq!(p.state, PeerState::Reset);
    assert_eq!(p.last_seen, 1001);
    assert!(p.public_key.is_none());
}

#[test]
fn older_message_without_advertisement_keeps_last_seen() {
    let mut p = PeerInfo::new(1000, None, None, None);
    p.apply_message("text/plain", 999, None);
    assert_eq!(p.state, PeerState::NoPreference);
    assert_eq!(p.last_seen, 1000);
}

#[test]
fn mutual_advertisement_sets_mutual() {
    let mut p = PeerInfo::new(1000, None, None, None);
    p.apply_message("text/plain", 1001, Some(mutual_header()));
    assert_eq!(p.state, PeerState::Mutual);
    assert_eq!(p.last_seen, 1001);
    assert_eq!(p.last_seen_autocrypt, Some(1001));
    assert_eq!(p.public_key, Some("k1".to_string()));
}

#[test]
fn plain_advertisement_sets_nopreference() {
    let mut p = PeerInfo::new(1000, None, None, Some(PeerState::Mutual));
    p.apply_message("text/plain", 1001, Some(plain_header()));
    assert_eq!(p.state, PeerState::NoPreference);
}

#[test]
fn key_updates_even_without_date_advance() {
    // the deliberate asymmetry: a date above last_seen_autocrypt but not
    // above last_seen refreshes the key without touching state or
    // last_seen
    let mut p = PeerInfo::new(
        2000,
        Some(1000),
        Some("old".to_string()),
        Some(PeerState::Reset),
    );
    p.apply_message("text/plain", 1500, Some(mutual_header()));
    assert_eq!(p.public_key, Some("k1".to_string()));
    assert_eq!(p.last_seen_autocrypt, Some(1500));
    assert_eq!(p.last_seen, 2000);
    assert_eq!(p.state, PeerState::Reset);
}

#[test]
fn report_content_type_is_ignored() {
    let mut p = PeerInfo::new(1000, None, None, None);
    let before = p.clone();
    p.apply_message("multipart/report", 5000, Some(mutual_header()));
    assert_eq!(p, before);
}

#[test]
fn recommendation_no_key_beats_mutual() {
    let now = now_secs();
    let from = PeerInfo::new(now, None, Some("k".to_string()), Some(PeerState::Mutual));
    let to = PeerInfo::new(now, None, None, Some(PeerState::Mutual));
    assert_eq!(from.recommendation(&to, now), Recommendation::Disable);
}

#[test]
fn recommendation_recent_reset_is_available() {
    let now = now_secs();
    let from = PeerInfo::new(now, None, Some("k".to_string()), None);
    let fresh = PeerInfo::new(
        now,
        Some(now - DAY_SECS),
        Some("k".to_string()),
        Some(PeerState::Reset),
    );
    let stale = PeerInfo::new(
        now,
        Some(now - 100 * DAY_SECS),
        Some("k".to_string()),
        Some(PeerState::Reset),
    );
    assert_eq!(from.recommendation(&fresh, now), Recommendation::Available);
    assert_eq!(from.recommendation(&stale, now), Recommendation::Discourage);
    assert!(100 * DAY_SECS > FOUR_WEEKS_SECS);
}

#[test]
fn recommendation_many_disable_dominates() {
    let now = now_secs();
    let from = PeerInfo::new(now, None, Some("k".to_string()), Some(PeerState::Mutual));
    let good = PeerInfo::new(now, None, Some("k".to_string()), Some(PeerState::Mutual));
    let keyless = PeerInfo::new(now, None, None, Some(PeerState::Mutual));
    assert_eq!(
        from.recommendation_many(vec![&good, &keyless], now),
        Recommendation::Disable
    );
}

#[test]
fn recommendation_many_discourage_beats_available() {
    let now = now_secs();
    let from = PeerInfo::new(now, None, Some("k".to_string()), None);
    let available = PeerInfo::new(now, None, Some("k".to_string()), None);
    let gossip = PeerInfo::new(now, None, Some("k".to_string()), Some(PeerState::Gossip));
    assert_eq!(
        from.recommendation_many(vec![&available, &gossip], now),
        Recommendation::Discourage
    );
}

#[test]
fn peer_state_tokens() {
    assert_eq!(PeerState::Mutual.to_token(), "mutual");
    assert_eq!(PeerState::NoPreference.to_token(), "nopreference");
    assert_eq!(PeerState::Reset.to_token(), "reset");
    assert_eq!(PeerState::Gossip.to_token(), "gossip");
}

#[test]
fn new_defaults() {
    let p = PeerInfo::new(42, None, None, None);
    assert_eq!(p.last_seen, 42);
    assert_eq!(p.state, PeerState::NoPreference);
    assert_eq!(p.typ, KeyType::OpenPGP);
    assert!(p.last_seen_autocrypt.is_none());
    assert!(p.public_key.is_none());
    let q = PeerInfo::new(42, Some(7), Some("k".to_string()), Some(PeerState::Gossip));
    assert_eq!(q.state, PeerState::Gossip);
    assert_eq!(q.last_seen_autocrypt, Some(7));
}

#[test]
fn update_with_mutual_advertisement_message() {
    let mut p = PeerInfo::new(1000, None, None, None);
    let file = "Content-Type: text/plain\n\
                Date: Sat, 17 Dec 2016 10:07:48 +0100\n\
                Autocrypt: addr=a@b; prefer-encrypt=mutual; keydata=abc\n\
                \n\
                body\n";
    let mail = mime::parse(file).expect("failed to parse");
    p.update(&mail).expect("failed to update");
    assert_eq!(p.state, PeerState::Mutual);
    assert_eq!(p.public_key, Some("abc".to_string()));
    assert_eq!(p.last_seen, date_secs("Sat, 17 Dec 2016 10:07:48 +0100"));
}

#[test]
fn update_keeps_preference_unchanged_on_unused_token() {
    let mut p = PeerInfo::new(1000, None, None, None);
    let file = "Content-Type: text/plain\n\
                Date: Sat, 17 Dec 2016 10:07:48 +0100\n\
                Autocrypt: addr=a@b; prefer-encrypt=archaic; keydata=abc\n\
                \n\
                body\n";
    let mail = mime::parse(file).expect("failed to parse");
    p.update(&mail).expect("failed to update");
    assert_eq!(p.state, PeerState::NoPreference);
}

#[test]
fn update_with_invalid_advertisement_is_an_error() {
    let mut p = PeerInfo::new(1000, None, None, None);
    let before = p.clone();
    let file = "Content-Type: text/plain\n\
                Date: Sat, 17 Dec 2016 10:07:48 +0100\n\
                Autocrypt: addr=a@b; unheard-of=1; keydata=abc\n\
                \n\
                body\n";
    let mail = mime::parse(file).expect("failed to parse");
    p.update(&mail).expect_err("should have failed to update");
    assert_eq!(p, before);
}

#[test]
fn update_treats_several_advertisements_as_absent() {
    let mut p = PeerInfo::new(1000, None, None, None);
    let file = "Content-Type: text/plain\n\
                Date: Sat, 17 Dec 2016 10:07:48 +0100\n\
                Autocrypt: addr=a@b; keydata=k1\n\
                Autocrypt: addr=a@b; keydata=k2\n\
                \n\
                body\n";
    let mail = mime::parse(file).expect("failed to parse");
    p.update(&mail).expect("failed to update");
    assert_eq!(p.state, PeerState::Reset);
    assert!(p.public_key.is_none());
    assert!(p.last_seen_autocrypt.is_none());
    assert_eq!(p.last_seen, date_secs("Sat, 17 Dec 2016 10:07:48 +0100"));
}

#[test]
fn gate_treats_several_advertisements_as_absent() {
    assert_eq!(
        gate_advertisement(Err(HeaderParseError::TooManyHeaders)).unwrap(),
        None
    );
}

#[test]
fn gate_passes_advertisements_through() {
    assert_eq!(gate_advertisement(Ok(None)).unwrap(), None);
    let h = mutual_header();
    assert_eq!(gate_advertisement(Ok(Some(h.clone()))).unwrap(), Some(h));
}

#[test]
fn gate_wraps_other_failures() {
    assert_eq!(
        gate_advertisement(Err(HeaderParseError::UnknownCriticalAttributes)).unwrap_err(),
        PeerInfoParseError::HeaderError(HeaderParseError::UnknownCriticalAttributes)
    );
    assert_eq!(
        gate_advertisement(Err(HeaderParseError::MissingCriticalAttribute(
            RequiredAttribute::Addr
        )))
        .unwrap_err(),
        PeerInfoParseError::HeaderError(HeaderParseError::MissingCriticalAttribute(
            RequiredAttribute::Addr
        ))
    );
}

#[test]
fn update_survives_encoded_word_values() {
    // header values shaped like RFC 2047 encoded words are read raw,
    // never decoded: the advertisement fails to parse and the record is
    // left unmodified
    let mut p = PeerInfo::new(1000, None, None, None);
    let before = p.clone();
    let file = "Content-Type: text/plain\n\
                Date: =?a?X?b?=\n\
                Autocrypt: =?x?q?=zz?=\n\
                \n\
                body\n";
    let mail = mime::parse(file).expect("failed to parse");
    assert_eq!(
        p.update(&mail).unwrap_err(),
        PeerInfoParseError::HeaderError(HeaderParseError::MissingCriticalAttribute(
            RequiredAttribute::Addr
        ))
    );
    assert_eq!(p, before);
}

#[test]
fn update_survives_malformed_content_type_parameters() {
    // the raw content type is not the report marker, so the ordinary
    // rules apply
    let mut p = PeerInfo::new(1000, None, None, None);
    let file = "Content-Type: multipart/report; report-type\n\
                Date: Sat, 17 Dec 2016 10:51:48 +0100\n\
                \n\
                body\n";
    let mail = mime::parse(file).expect("failed to parse");
    p.update(&mail).expect("failed to update");
    assert_eq!(p.state, PeerState::Reset);
    assert_eq!(p.last_seen, date_secs("Sat, 17 Dec 2016 10:51:48 +0100"));
}
