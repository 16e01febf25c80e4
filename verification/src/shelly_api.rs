//! The parts of the Shelly Plug S HTTP API that compute: which URL to ask
//! and with which header, reading the UTC offset out of the settings, and
//! adding it to a meter reading.

use vstd::prelude::*;

use crate::options::RunOptions;
use crate::text::decimal_digits;

verus! {

/// An error of `serde_json`.
#[verifier::external_type_specification]
#[verifier::external_body]
pub struct ExJsonError(serde_json::Error);

/// What `serde_json` reads from `text` as the member `key` of a JSON
/// object, taken as an `i64`: `None` when `text` is not JSON, `Some(None)`
/// when it is JSON but holds no such member or the member is no integer
/// within the `i64` range.
pub uninterp spec fn json_i64_member(text: Seq<char>, key: Seq<char>) -> Option<Option<i64>>;

/// Whether `text` is JSON that `serde_json` cannot set a member in: a value
/// that is neither an object nor `null`.
pub uninterp spec fn json_refuses_member(text: Seq<char>) -> bool;

/// The text that `serde_json` writes for the JSON `text` with the member
/// `key` set to the number `value`; `None` when `text` is not JSON.
pub uninterp spec fn json_with_i32_member(text: Seq<char>, key: Seq<char>, value: i32) -> Option<
    Seq<char>,
>;

/// Whether `key` can stand between quotes in JSON as it is: no quote, no
/// backslash and no control character.
pub open spec fn plain_json_key(key: Seq<char>) -> bool {
    forall|i: int|
        0 <= i < key.len() ==> #[trigger] key[i] != '"' && key[i] != '\\' && key[i] as int >= 0x20
}

/// The JSON text of the integer `n`: its decimal digits, after a `-` when
/// it is negative.
pub open spec fn json_integer_text(n: int) -> Seq<char> {
    if n < 0 {
        seq!['-'] + decimal_digits((-n) as nat)
    } else {
        decimal_digits(n as nat)
    }
}

/// The JSON text of an object with the single member `key` holding `n`.
pub open spec fn single_member_object(key: Seq<char>, n: int) -> Seq<char> {
    "{\""@ + key + "\":"@ + json_integer_text(n) + "}"@
}

/// Parses `text` with `serde_json::from_str` into a `serde_json::Value`,
/// looks `key` up with `Index` (which gives `null` for a missing member or
/// a value that is no object) and reads the member with `Value::as_i64`.
/// Trusted: the result is named by `json_i64_member`, and the parse error
/// comes back exactly when the name says the text is not JSON; an object
/// whose one member `key` holds an integer in the `i64` range gives that
/// integer.
#[verifier::external_body]
fn json_member_as_i64(text: &str, key: &str) -> (r: Result<Option<i64>, serde_json::Error>)
    ensures
        match r {
            Ok(member) => json_i64_member(text@, key@) == Some(member),
            Err(_) => json_i64_member(text@, key@) is None,
        },
        match r {
            Ok(Some(v)) => forall|n: int|
                i64::MIN <= n <= i64::MAX && plain_json_key(key@) && text@
                    == #[trigger] single_member_object(key@, n) ==> v == n,
            _ => forall|n: int|
                !(i64::MIN <= n <= i64::MAX && plain_json_key(key@) && text@
                    == #[trigger] single_member_object(key@, n)),
        },
{
    let value: serde_json::Value = serde_json::from_str(text)?;
    Ok(value[key].as_i64())
}

/// Parses `text` with `serde_json::from_str` into a `serde_json::Value`
/// and tells whether it is JSON other than an object or `null`, the values
/// into which `IndexMut` with a key panics. Trusted: the result is named by
/// `json_refuses_member`.
#[verifier::external_body]
fn json_text_refuses_member(text: &str) -> (r: bool)
    ensures
        r == json_refuses_member(text@),
{
    match serde_json::from_str::<serde_json::Value>(text) {
        Ok(serde_json::Value::Object(_)) => false,
        Ok(serde_json::Value::Null) => false,
        Ok(_) => true,
        Err(_) => false,
    }
}

/// Parses `text` with `serde_json::from_str`, sets the member `key` to the
/// number `value` with `IndexMut`, and writes the value back with
/// `serde_json::to_string`. Trusted: the written text is named by
/// `json_with_i32_member`; the requirement keeps out the JSON values on
/// which `IndexMut` panics. The text comes back exactly when `text` is JSON;
/// read back, it holds `value` in the member `key` and every other member
/// as `text` held it (`serde_json` writes integers exactly and reads back
/// the value it wrote).
#[verifier::external_body]
fn json_set_i32_member(text: &str, key: &str, value: i32) -> (r: Result<String, serde_json::Error>)
    requires
        !json_refuses_member(text@),
    ensures
        match r {
            Ok(written) => json_with_i32_member(text@, key@, value) == Some(written@),
            Err(_) => json_with_i32_member(text@, key@, value) is None,
        },
        (r is Ok) == (json_i64_member(text@, key@) is Some),
        r matches Ok(written) ==> json_i64_member(written@, key@) == Some(Some(value as i64)),
        r matches Ok(written) ==> forall|member: Seq<char>|
            member != key@ ==> #[trigger] json_i64_member(written@, member) == json_i64_member(
                text@,
                member,
            ),
{
    let mut json: serde_json::Value = serde_json::from_str(text)?;
    json[key] = serde_json::Value::Number(serde_json::Number::from(value));
    serde_json::to_string(&json)
}

/// Why a request to the plug cannot be made or its answer cannot be read.
pub enum ShellyApiError {
    /// The options name no address of the plug.
    MissingApiUrl,
    /// The answer is not JSON.
    InvalidJson(serde_json::Error),
    /// The settings hold no integer UTC offset.
    OffsetNotFound,
}

/// Writes a `serde_json::Error` with its `Display` impl through
/// `ToString::to_string`. Trusted only to return some text: nothing is
/// promised of what it says.
#[verifier::external_body]
fn json_error_text(error: &serde_json::Error) -> String {
    error.to_string()
}

impl ShellyApiError {
    /// The text by which the error is reported: the two refusals of this
    /// library have fixed texts, a JSON error reports what `serde_json`
    /// says.
    pub fn message(&self) -> (r: String)
        ensures
            self is MissingApiUrl ==> r@ == "Shelly API URL nicht angegeben"@,
            self is OffsetNotFound ==> r@ == "Offset not in JSON or not parseable"@,
    {
        match self {
            ShellyApiError::MissingApiUrl => String::from_str("Shelly API URL nicht angegeben"),
            ShellyApiError::InvalidJson(error) => json_error_text(error),
            ShellyApiError::OffsetNotFound => String::from_str("Offset not in JSON or not parseable"),
        }
    }
}

/// A GET request to the plug: its URL and, if the plug wants basic
/// authentication, the value of the `Authorization` header.
pub struct ShellyRequest {
    pub url: String,
    pub authorization: Option<String>,
}

/// The value of the `Authorization` header for the encoded credentials
/// `auth`.
pub open spec fn basic_authorization(auth: Seq<char>) -> Seq<char> {
    "Basic "@ + auth
}

/// Whether `header` is the `Authorization` header value that
/// `authentication` calls for: none without credentials, basic
/// authentication with them.
pub open spec fn authorization_for(authentication: Option<String>, header: Option<String>) -> bool {
    match authentication {
        Some(auth) => match header {
            Some(h) => h@ == basic_authorization(auth@),
            None => false,
        },
        None => header is None,
    }
}

/// The `Authorization` header value for optional credentials.
pub fn authorization_header(authentication: &Option<String>) -> (r: Option<String>)
    ensures
        authorization_for(*authentication, r),
{
    match authentication {
        Some(auth) => {
            let mut header = String::from_str("Basic ");
            header.append(auth.as_str());
            Some(header)
        },
        None => None,
    }
}

/// The request for `path` on the plug named in `options`, refused when no
/// plug is named.
pub fn shelly_request(options: &RunOptions, path: &str) -> (r: Result<ShellyRequest, ShellyApiError>)
    ensures
        match options.shelly_api_url {
            None => r matches Err(ShellyApiError::MissingApiUrl),
            Some(host) => match r {
                Ok(request) => request.url@ == "http://"@ + host@ + path@ && authorization_for(
                    options.authentication,
                    request.authorization,
                ),
                Err(_) => false,
            },
        },
{
    match &options.shelly_api_url {
        Some(host) => {
            let mut url = String::from_str("http://");
            url.append(host.as_str());
            url.append(path);
            Ok(ShellyRequest { url, authorization: authorization_header(&options.authentication) })
        },
        None => Err(ShellyApiError::MissingApiUrl),
    }
}

/// The request for the current meter reading (`/meter/0`).
pub fn meter_status_request(options: &RunOptions) -> (r: Result<ShellyRequest, ShellyApiError>)
    ensures
        match options.shelly_api_url {
            None => r matches Err(ShellyApiError::MissingApiUrl),
            Some(host) => match r {
                Ok(request) => request.url@ == "http://"@ + host@ + "/meter/0"@ && authorization_for(
                    options.authentication,
                    request.authorization,
                ),
                Err(_) => false,
            },
        },
{
    shelly_request(options, "/meter/0")
}

/// The request for the settings of the plug (`/settings`).
pub fn settings_request(options: &RunOptions) -> (r: Result<ShellyRequest, ShellyApiError>)
    ensures
        match options.shelly_api_url {
            None => r matches Err(ShellyApiError::MissingApiUrl),
            Some(host) => match r {
                Ok(request) => request.url@ == "http://"@ + host@ + "/settings"@ && authorization_for(
                    options.authentication,
                    request.authorization,
                ),
                Err(_) => false,
            },
        },
{
    shelly_request(options, "/settings")
}

/// The member of the settings that holds the UTC offset in seconds.
pub open spec fn offset_key() -> Seq<char> {
    "tz_utc_offset"@
}

/// The member that the meter reading gets for the UTC offset.
pub open spec fn utc_offset_key() -> Seq<char> {
    "utcOffset"@
}

/// The name of the offset member needs no escaping in JSON.
proof fn lemma_offset_key_is_plain()
    ensures
        plain_json_key(offset_key()),
{
    reveal_strlit("tz_utc_offset");
    assert forall|i: int| 0 <= i < offset_key().len() implies #[trigger] offset_key()[i] != '"'
        && offset_key()[i] != '\\' && offset_key()[i] as int >= 0x20 by {
        assert('"' as int == 34 && '\\' as int == 92 && '_' as int == 95);
        assert('t' as int == 116 && 'z' as int == 122 && 'u' as int == 117 && 'c' as int == 99);
        assert('o' as int == 111 && 'f' as int == 102 && 's' as int == 115 && 'e' as int == 101);
    }
}

/// Reads the UTC offset (in seconds) out of the settings of the plug: the
/// integer member `tz_utc_offset`, cut to an `i32` as `as` does.
pub fn extract_offset_from_json(json: &str) -> (r: Result<i32, ShellyApiError>)
    ensures
        match json_i64_member(json@, offset_key()) {
            None => r matches Err(ShellyApiError::InvalidJson(_)),
            Some(None) => r matches Err(ShellyApiError::OffsetNotFound),
            Some(Some(offset)) => r matches Ok(value) && value == offset as i32,
        },
        forall|n: int|
            i64::MIN <= n <= i64::MAX && json@ == #[trigger] single_member_object(offset_key(), n)
                ==> (r matches Ok(value) && value == n as i32),
{
    proof {
        lemma_offset_key_is_plain();
    }
    match json_member_as_i64(json, "tz_utc_offset") {
        Ok(Some(offset)) => Ok(offset as i32),
        Ok(None) => Err(ShellyApiError::OffsetNotFound),
        Err(error) => Err(ShellyApiError::InvalidJson(error)),
    }
}

/// Adds the UTC offset of the plug to a meter reading as the member
/// `utcOffset`; the reading must be a JSON object (or `null`), or not JSON
/// at all.
pub fn add_utc_offset(json: &str, utc_offset: i32) -> (r: Result<String, ShellyApiError>)
    requires
        !json_refuses_member(json@),
    ensures
        match json_with_i32_member(json@, utc_offset_key(), utc_offset) {
            Some(text) => r matches Ok(written) && written@ == text,
            None => r matches Err(ShellyApiError::InvalidJson(_)),
        },
        (r is Ok) == (json_i64_member(json@, utc_offset_key()) is Some),
        r matches Ok(written) ==> json_i64_member(written@, utc_offset_key()) == Some(
            Some(utc_offset as i64),
        ),
        r matches Ok(written) ==> forall|member: Seq<char>|
            member != utc_offset_key() ==> #[trigger] json_i64_member(written@, member)
                == json_i64_member(json@, member),
{
    match json_set_i32_member(json, "utcOffset", utc_offset) {
        Ok(written) => Ok(written),
        Err(error) => Err(ShellyApiError::InvalidJson(error)),
    }
}

/// `add_utc_offset` for any text: `None` for JSON that is neither an object
/// nor `null` (which cannot take the member), else what `add_utc_offset`
/// gives.
pub fn try_add_utc_offset(json: &str, utc_offset: i32) -> (r: Option<Result<String, ShellyApiError>>)
    ensures
        json_refuses_member(json@) ==> r is None,
        !json_refuses_member(json@) ==> match json_with_i32_member(
            json@,
            utc_offset_key(),
            utc_offset,
        ) {
            Some(text) => r matches Some(Ok(written)) && written@ == text,
            None => r matches Some(Err(ShellyApiError::InvalidJson(_))),
        },
        r matches Some(Ok(written)) ==> json_i64_member(written@, utc_offset_key()) == Some(
            Some(utc_offset as i64),
        ),
        r matches Some(Ok(written)) ==> forall|member: Seq<char>|
            member != utc_offset_key() ==> #[trigger] json_i64_member(written@, member)
                == json_i64_member(json@, member),
        r matches Some(Err(_)) ==> json_i64_member(json@, utc_offset_key()) is None,
{
    if json_text_refuses_member(json) {
        None
    } else {
        Some(add_utc_offset(json, utc_offset))
    }
}

} // verus!
