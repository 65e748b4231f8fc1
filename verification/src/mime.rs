//! Extraction of the advertisement header and the effective date from a
//! parsed message, on top of an outside MIME library and an outside
//! date parser. Header values are taken raw, as the serialized
//! `name: value` line shows them.

use vstd::prelude::*;
use vstd::string::{StrSliceExecFns, StringExecFns};
use crate::errors::HeaderParseError;
use crate::header::{parse_header, parse_spec, HeaderView};
use crate::strutil::{find_char, find_in, lemma_find_in_is};

verus! {

#[verifier::external_type_specification]
#[verifier::external_body]
pub struct ExMimeMessage(email::MimeMessage);

#[verifier::external_type_specification]
#[verifier::external_body]
pub struct ExParsingError(email::results::ParsingError);

/// Relies on `email::rfc5322::Rfc5322Parser::consume_message` to read a
/// raw message into its headers and body, and on `email::MimeMessage::new`
/// to hold them. The multipart post-processing of `MimeMessage::parse` is
/// deliberately not used: it fails abruptly on a Content-Type parameter
/// without `=` or ending at `=`, and nothing in this library reads the
/// message parts it would produce. The parser itself guards every peek,
/// so no input fails abruptly here.
#[verifier::external_body]
pub fn parse(s: &str) -> (r: Result<email::MimeMessage, email::results::ParsingError>) {
    match email::rfc5322::Rfc5322Parser::new(s).consume_message() {
        Some((headers, body)) => {
            let mut mail = email::MimeMessage::new(body);
            mail.headers = headers;
            Ok(mail)
        },
        None => Err(email::results::ParsingError::new("no message".to_string())),
    }
}

/// Relies on `email::HeaderMap::find` and the `Display` of
/// `email::Header`, which prints `name: value` with the raw, undecoded
/// value: nothing when no header carries `name`; otherwise one such
/// line per header carrying it. Neither call can panic: `find` only
/// reads the map, and the `Display` writes two plain strings.
#[verifier::external_body]
fn named_header_lines(mail: &email::MimeMessage, name: &str) -> (r: Option<Vec<String>>) {
    mail.headers.find(name).map(|hs| hs.iter().map(|h| h.to_string()).collect())
}

/// Relies on `email::HeaderMap::get` and the `Display` of
/// `email::Header`: the `name: value` line of the last header carrying
/// `name`, with the raw, undecoded value, or nothing when there is
/// none. `get` unwraps the last entry of the per-name list, which its
/// map's `insert` and `replace` never leave empty, so the call cannot
/// panic.
#[verifier::external_body]
pub(crate) fn named_header_line(mail: &email::MimeMessage, name: &str) -> (r: Option<String>) {
    mail.headers.get(name.to_string()).map(|h| h.to_string())
}

/// Relies on `time::OffsetDateTime::now_utc` for the current time, as
/// seconds of the Unix epoch; nothing is promised of its value.
#[verifier::external_body]
fn now_unix_seconds() -> i64 {
    time::OffsetDateTime::now_utc().unix_timestamp()
}

/// What the outside RFC 2822 date parser yields on a header value, as
/// seconds of the Unix epoch: a function of the characters alone.
pub uninterp spec fn email_date_seconds(s: Seq<char>) -> Option<i64>;

/// Relies on `time::OffsetDateTime::parse` with the RFC 2822 format:
/// the result depends on the characters alone.
#[verifier::external_body]
fn parse_email_date(s: &str) -> (r: Option<i64>)
    ensures
        r == email_date_seconds(s@),
{
    time::OffsetDateTime::parse(s, &time::format_description::well_known::Rfc2822).ok().map(
        |d| d.unix_timestamp(),
    )
}

/// The value part of a serialized `name: value` header line: what
/// follows the first `: `, or nothing where the line has no such shape.
pub open spec fn line_value_spec(line: Seq<char>) -> Option<Seq<char>> {
    let i = find_in(line, ':') as int;
    if i + 2 <= line.len() && line[i + 1] == ' ' {
        Some(line.skip(i + 2))
    } else {
        None
    }
}

/// Strips the `name: ` prefix off a serialized header line.
pub(crate) fn line_value(line: &str) -> (r: Option<String>)
    ensures
        match r {
            Some(v) => line_value_spec(line@) == Some(v@),
            None => line_value_spec(line@) is None,
        },
{
    let n = line.unicode_len();
    let i = find_char(line, 0, ':');
    proof {
        lemma_find_in_is(line@, ':', i as int);
    }
    if i < n && i + 1 < n && line.get_char(i + 1) == ' ' {
        let v = line.substring_char(i + 2, n);
        proof {
            assert(v@ =~= line@.skip(i as int + 2));
        }
        Some(String::from_str(v))
    } else {
        None
    }
}

/// The view of a list of optional raw values.
pub open spec fn opt_vals_view(v: Seq<Option<String>>) -> Seq<Option<Seq<char>>> {
    Seq::new(
        v.len(),
        |i: int|
            match v[i] {
                Some(s) => Some(s@),
                None => None,
            },
    )
}

/// The view of what advertisement extraction returns.
pub open spec fn ac_result_view(r: &Result<Option<crate::header::Header>, HeaderParseError>) -> Result<
    Option<HeaderView>,
    HeaderParseError,
> {
    match r {
        Ok(Some(h)) => Ok(Some(h@)),
        Ok(None) => Ok(None),
        Err(e) => Err(*e),
    }
}

/// How the raw advertisement values of one message are judged: none is
/// not an error; more than one is always a protocol violation; a single
/// unreadable one is invalid; a single readable one means what it
/// parses to.
pub open spec fn ac_selection_spec(vals: Seq<Option<Seq<char>>>) -> Result<
    Option<HeaderView>,
    HeaderParseError,
> {
    if vals.len() == 0 {
        Ok(None)
    } else if vals.len() > 1 {
        Err(HeaderParseError::TooManyHeaders)
    } else {
        match vals[0] {
            None => Err(HeaderParseError::InvalidHeader),
            Some(v) => match parse_spec(v) {
                Ok(h) => Ok(Some(h)),
                Err(e) => Err(e),
            },
        }
    }
}

/// Judges the advertisement values found on one message, exactly as
/// [`ac_selection_spec`] prescribes.
pub fn ac_header_from_values(vals: &Vec<Option<String>>) -> (r: Result<
    Option<crate::header::Header>,
    HeaderParseError,
>)
    ensures
        ac_result_view(&r) == ac_selection_spec(opt_vals_view(vals@)),
        r matches Ok(Some(h)) ==> h.wf(),
{
    if vals.len() == 0 {
        return Ok(None);
    }
    if vals.len() > 1 {
        return Err(HeaderParseError::TooManyHeaders);
    }
    let first: &Option<String> = &vals[0];
    match first {
        None => Err(HeaderParseError::InvalidHeader),
        Some(v) => match parse_header(v.as_str()) {
            Ok(h) => Ok(Some(h)),
            Err(e) => Err(e),
        },
    }
}

/// The advertisement carried by a message: the values of its
/// advertisement headers, judged by [`ac_selection_spec`]. Yields
/// nothing when no such header is present, the parsed header when
/// exactly one valid one is, and an error when one is present but
/// invalid or when several are.
pub fn get_ac_header(mail: &email::MimeMessage) -> (r: Result<
    Option<crate::header::Header>,
    HeaderParseError,
>)
    ensures
        exists|vals: Seq<Option<Seq<char>>>| ac_result_view(&r) == ac_selection_spec(vals),
        r matches Ok(Some(h)) ==> h.wf(),
        r matches Err(e) ==> e != HeaderParseError::MissingHeader,
{
    match named_header_lines(mail, "Autocrypt") {
        None => {
            proof {
                assert(ac_result_view(&Ok::<Option<crate::header::Header>, HeaderParseError>(None))
                    == ac_selection_spec(Seq::<Option<Seq<char>>>::empty()));
            }
            Ok(None)
        },
        Some(lines) => {
            let mut vals: Vec<Option<String>> = Vec::new();
            let n = lines.len();
            let mut i: usize = 0;
            while i < n
                invariant
                    0 <= i <= n,
                    n == lines@.len(),
                decreases n - i,
            {
                vals.push(line_value(lines[i].as_str()));
                i = i + 1;
            }
            let r = ac_header_from_values(&vals);
            proof {
                match r {
                    Err(e) => {
                        assert(ac_selection_spec(opt_vals_view(vals@)) == Err::<
                            Option<HeaderView>,
                            HeaderParseError,
                        >(e));
                    },
                    _ => {},
                }
            }
            r
        },
    }
}

/// Which timestamp governs a message: its parsed date where it has one,
/// the current time otherwise.
pub open spec fn effective_date_spec(parsed: Option<i64>, now: i64) -> i64 {
    match parsed {
        Some(t) => t,
        None => now,
    }
}

/// Chooses the effective date, exactly as [`effective_date_spec`]
/// prescribes: a parsed date is taken as it is, anything else falls
/// back to the given current time.
pub fn effective_date_from(parsed: Option<i64>, now: i64) -> (r: i64)
    ensures
        r == effective_date_spec(parsed, now),
{
    match parsed {
        Some(t) => t,
        None => now,
    }
}

/// The effective date of a message: its `Date` header parsed as an RFC
/// 2822 date when present and readable, the current time otherwise; the
/// choice is [`effective_date_spec`].
pub fn get_effective_date(mail: &email::MimeMessage) -> (r: i64)
    ensures
        exists|parsed: Option<i64>, now: i64| r == effective_date_spec(parsed, now),
{
    let parsed = match named_header_line(mail, "Date") {
        None => None,
        Some(line) => match line_value(line.as_str()) {
            None => None,
            Some(v) => parse_email_date(v.as_str()),
        },
    };
    effective_date_from(parsed, now_unix_seconds())
}

} // verus!
