//! The calls into other crates, each behind a contract that states what is relied on.
use crate::text::opt_text;
use sha2::Digest;
use vstd::prelude::*;

verus! {

/// The most bytes that one SHA-256 computation can count: their number of bits fits in 64 bits.
pub const HASH_LIMIT: u64 = 0x1fff_ffff_ffff_ffff;

/// A SHA-256 computation of the `sha2` crate under way.
#[verifier::external_body]
pub struct RunningHash {
    inner: sha2::Sha256,
}

/// The bytes that a computation has taken in so far, in order.
pub uninterp spec fn absorbed(hash: RunningHash) -> Seq<u8>;

/// The SHA-256 digest of `data`, in lower-case hexadecimal.
pub uninterp spec fn sha256_hex(data: Seq<u8>) -> Seq<char>;

/// `Sha256::new` starts a computation that has taken in nothing.
#[verifier::external_body]
pub(crate) fn new_hash() -> (hash: RunningHash)
    ensures
        absorbed(hash) == Seq::<u8>::empty(),
{
    RunningHash { inner: sha2::Sha256::new() }
}

/// `Sha256::update` takes in `data` behind what was taken in before.
#[verifier::external_body]
pub(crate) fn feed_hash(hash: &mut RunningHash, data: &[u8])
    requires
        absorbed(*old(hash)).len() + data@.len() <= HASH_LIMIT,
    ensures
        absorbed(*final(hash)) == absorbed(*old(hash)) + data@,
{
    hash.inner.update(data);
}

/// `Sha256::finalize`, written as lower-case hexadecimal: the digest of all that was taken in,
/// which is two hexadecimal digits for each of its 32 bytes.
#[verifier::external_body]
pub(crate) fn finish_hash(hash: RunningHash) -> (text: String)
    requires
        absorbed(hash).len() <= HASH_LIMIT,
    ensures
        text@ == sha256_hex(absorbed(hash)),
        text@.len() == 64,
        forall|i: int| 0 <= i < text@.len() ==> is_lower_hex(#[trigger] text@[i]),
{
    format!("{:x}", hash.inner.finalize())
}

/// A lower-case hexadecimal digit.
pub open spec fn is_lower_hex(c: char) -> bool {
    ('0' <= c && c <= '9') || ('a' <= c && c <= 'f')
}

/// The characters of `text` in Unicode normalization form D.
pub uninterp spec fn nfd(text: Seq<char>) -> Seq<char>;

/// `UnicodeNormalization::nfd` of the `unicode_normalization` crate: the canonical
/// decomposition of `text`, a function of its characters alone.
#[verifier::external_body]
pub(crate) fn decompose(text: &str) -> (chars: Vec<char>)
    ensures
        chars@ == nfd(text@),
{
    unicode_normalization::UnicodeNormalization::nfd(text).collect()
}

/// The lower-case form of one character.
pub uninterp spec fn lowercase(c: char) -> Seq<char>;

/// `char::to_lowercase` of the standard library: the lower-case mapping of `c`, of one or more
/// characters, without regard to what stands around it.
#[verifier::external_body]
pub(crate) fn lower(c: char) -> (chars: Vec<char>)
    ensures
        chars@ == lowercase(c),
        chars@.len() > 0,
{
    c.to_lowercase().collect()
}

/// The seconds since the Unix epoch that an RFC 3339 date and time stands for, if `text` is one.
pub uninterp spec fn rfc3339_seconds(text: Seq<char>) -> Option<i64>;

/// `DateTime::parse_from_rfc3339` of the `chrono` crate and `timestamp` of what it returns:
/// a function of the text alone, without a value where the text is no such date.
#[verifier::external_body]
pub(crate) fn parse_rfc3339(text: &str) -> (seconds: Option<i64>)
    ensures
        seconds == rfc3339_seconds(text@),
{
    chrono::DateTime::parse_from_rfc3339(text).ok().map(|v| v.timestamp())
}

/// The first second that chrono represents: the beginning of the year -262143.
pub const FIRST_SECOND: i64 = -8_334_601_228_800;

/// The last second that chrono represents: the end of the year 262142.
pub const LAST_SECOND: i64 = 8_210_266_876_799;

/// Whether chrono represents the instant that lies `seconds` and `nanos` after the Unix epoch. A leap
/// second has a thousand million nanoseconds more, and follows only on the last second of a minute.
pub open spec fn is_instant(seconds: int, nanos: u32) -> bool {
    &&& FIRST_SECOND <= seconds <= LAST_SECOND
    &&& nanos < 2_000_000_000
    &&& nanos >= 1_000_000_000 ==> seconds % 60 == 59
}

/// The instant `delay` seconds after another one, both by their seconds and nanoseconds after the
/// Unix epoch, where chrono represents both. Whoever goes on from a leap second leaves it.
pub open spec fn instant_after(seconds: i64, nanos: u32, delay: i64) -> Option<(int, int)> {
    if is_instant(seconds as int, nanos) && seconds + delay <= LAST_SECOND {
        Some(
            (
                seconds + delay,
                if nanos >= 1_000_000_000 && delay > 0 {
                    nanos - 1_000_000_000
                } else {
                    nanos as int
                },
            ),
        )
    } else {
        None
    }
}

/// The largest number of whole seconds in a `chrono::TimeDelta`: `i64::MAX` milliseconds.
pub const LONGEST_DELAY: i64 = 9_223_372_036_854_775;

/// `DateTime::checked_add_signed` of the `chrono` crate on a UTC instant: the sum of the seconds with
/// the nanoseconds unchanged, but for those of a leap second, and none where an instant is out of
/// range. `delay` is one of which `TimeDelta::try_seconds` makes a duration.
#[verifier::external_body]
pub(crate) fn add_to_instant(seconds: i64, nanos: u32, delay: i64) -> (at: Option<(i64, u32)>)
    requires
        0 <= delay <= LONGEST_DELAY,
    ensures
        match at {
            Some(at) => instant_after(seconds, nanos, delay) == Some((at.0 as int, at.1 as int)),
            None => instant_after(seconds, nanos, delay) is None,
        },
{
    let now = chrono::DateTime::<chrono::Utc>::from_timestamp(seconds, nanos)?;
    let delta = chrono::TimeDelta::try_seconds(delay)?;
    now.checked_add_signed(delta).map(|at| (at.timestamp(), at.timestamp_subsec_nanos()))
}

/// The RFC 3339 text of the instant that lies `seconds` and `nanos` after the Unix epoch.
pub uninterp spec fn rfc3339_text(seconds: int, nanos: int) -> Seq<char>;

/// `DateTime::to_rfc3339` of the `chrono` crate on a UTC instant: a function of the two numbers, with
/// a value wherever chrono represents the instant.
#[verifier::external_body]
pub(crate) fn write_rfc3339(seconds: i64, nanos: u32) -> (text: Option<String>)
    ensures
        match text {
            Some(text) => is_instant(seconds as int, nanos) && text@ == rfc3339_text(
                seconds as int,
                nanos as int,
            ),
            None => !is_instant(seconds as int, nanos),
        },
{
    chrono::DateTime::<chrono::Utc>::from_timestamp(seconds, nanos).map(|at| at.to_rfc3339())
}

/// The 128-bit value of a UUID text, if `text` is one.
pub uninterp spec fn uuid_value(text: Seq<char>) -> Option<u128>;

/// Why `text` is no UUID, where it is none.
pub uninterp spec fn uuid_fault(text: Seq<char>) -> Seq<char>;

/// `Uuid::parse_str` of the `uuid` crate: the value that the text stands for, and where the text is
/// no UUID, what `Display` of the error tells.
#[verifier::external_body]
pub(crate) fn parse_uuid(text: &str) -> (value: Result<u128, String>)
    ensures
        match value {
            Ok(value) => uuid_value(text@) == Some(value),
            Err(words) => uuid_value(text@) is None && words@ == uuid_fault(text@),
        },
{
    uuid::Uuid::parse_str(text).map(|id| id.as_u128()).map_err(|error| error.to_string())
}

/// The hyphenated lower-case text of a UUID.
pub uninterp spec fn uuid_text(id: u128) -> Seq<char>;

/// A character of a hyphenated UUID.
pub open spec fn is_uuid_char(c: char) -> bool {
    is_lower_hex(c) || c == '-'
}

/// `Display` of `Uuid` of the `uuid` crate: 32 lower-case hexadecimal digits in groups that
/// four hyphens part, so that no two values have the same text.
#[verifier::external_body]
pub(crate) fn write_uuid(id: u128) -> (text: String)
    ensures
        text@ == uuid_text(id),
        text@.len() == 36,
        forall|i: int| 0 <= i < text@.len() ==> is_uuid_char(#[trigger] text@[i]),
        forall|other: u128| #[trigger] uuid_text(other) == text@ ==> other == id,
{
    uuid::Uuid::from_u128(id).to_string()
}

/// Whether the version and variant bits of `id` are those of a random UUID.
pub open spec fn is_random_uuid(id: u128) -> bool {
    (id >> 76) & 0xf == 4 && (id >> 62) & 3 == 2
}

/// `Uuid::new_v4` of the `uuid` crate: some random UUID. Nothing ties one call to another.
#[verifier::external_body]
pub(crate) fn fresh_uuid() -> (id: u128)
    ensures
        is_random_uuid(id),
{
    uuid::Uuid::new_v4().as_u128()
}

/// Whether `data` spells a JSON value.
pub uninterp spec fn json_valid(data: Seq<u8>) -> bool;

/// `from_slice` of the `serde_json` crate into a value of any form: whether `data` spells one.
#[verifier::external_body]
pub(crate) fn is_json(data: &[u8]) -> (yes: bool)
    ensures
        yes == json_valid(data@),
{
    serde_json::from_slice::<serde_json::Value>(data).is_ok()
}

/// The text under `key` in the JSON object that `data` spells, if it is one with such a member.
pub uninterp spec fn json_text(data: Seq<u8>, key: Seq<char>) -> Option<Seq<char>>;

/// `from_slice` of the `serde_json` crate and `as_str` of the member `key` of what it returns.
/// There is none where `data` is no JSON, no object, without that member, or where the member
/// is no text.
#[verifier::external_body]
pub(crate) fn json_text_member(data: &[u8], key: &str) -> (text: Option<String>)
    ensures
        opt_text(text) == json_text(data@, key@),
{
    let value: serde_json::Value = serde_json::from_slice(data).ok()?;
    value[key].as_str().map(|t| t.to_string())
}

/// The integer under `key` in the JSON object that `data` spells, if it is one with such a
/// member that 64 bits hold.
pub uninterp spec fn json_integer(data: Seq<u8>, key: Seq<char>) -> Option<i64>;

/// `from_slice` of the `serde_json` crate and `as_i64` of the member `key` of what it returns.
#[verifier::external_body]
pub(crate) fn json_integer_member(data: &[u8], key: &str) -> (value: Option<i64>)
    ensures
        value == json_integer(data@, key@),
{
    let value: serde_json::Value = serde_json::from_slice(data).ok()?;
    value[key].as_i64()
}

/// The truth value under `key` in the JSON object that `data` spells, if it is one with such a
/// member.
pub uninterp spec fn json_flag(data: Seq<u8>, key: Seq<char>) -> Option<bool>;

/// `from_slice` of the `serde_json` crate and `as_bool` of the member `key` of what it returns.
#[verifier::external_body]
pub(crate) fn json_flag_member(data: &[u8], key: &str) -> (value: Option<bool>)
    ensures
        value == json_flag(data@, key@),
{
    let value: serde_json::Value = serde_json::from_slice(data).ok()?;
    value[key].as_bool()
}

/// The JSON array of six texts, a truth value and a text, in that order.
pub uninterp spec fn json_row(
    a: Seq<char>,
    b: Seq<char>,
    c: Seq<char>,
    d: Seq<char>,
    e: Seq<char>,
    f: Seq<char>,
    flag: bool,
    g: Seq<char>,
) -> Seq<char>;

/// `to_string` of the `serde_json` crate on eight values: the JSON array of them. It cannot fail
/// on texts and truth values. JSON spells out each member, so that two arrays with the same text
/// hold the same members.
#[verifier::external_body]
pub(crate) fn write_json_row(
    a: &str,
    b: &str,
    c: &str,
    d: &str,
    e: &str,
    f: &str,
    flag: bool,
    g: &str,
) -> (text: String)
    ensures
        text@ == json_row(a@, b@, c@, d@, e@, f@, flag, g@),
        forall|
            a2: Seq<char>,
            b2: Seq<char>,
            c2: Seq<char>,
            d2: Seq<char>,
            e2: Seq<char>,
            f2: Seq<char>,
            flag2: bool,
            g2: Seq<char>,
        |
            #[trigger] json_row(a2, b2, c2, d2, e2, f2, flag2, g2) == text@ ==> a2 == a@ && b2 == b@
                && c2 == c@ && d2 == d@ && e2 == e@ && f2 == f@ && flag2 == flag && g2 == g@,
{
    serde_json::to_string(&(a, b, c, d, e, f, flag, g)).unwrap()
}

} // verus!
