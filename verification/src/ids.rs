use vstd::prelude::*;
use crate::error::ApiError;

verus! {

/// The error of `uuid::Uuid::parse_str`, carried through unopened.
#[verifier::external_type_specification]
#[verifier::external_body]
pub struct ExUuidError(uuid::Error);

/// A JSON value, carried through unopened.
#[verifier::external_type_specification]
#[verifier::external_body]
pub struct ExJsonValue(serde_json::Value);

/// The lower-case hexadecimal digit of `n`, for `0 <= n < 16`.
pub open spec fn hex_digit(n: int) -> char {
    if n < 10 {
        (48 + n) as char
    } else {
        (87 + n) as char
    }
}

/// The last `count` hexadecimal digits of `x`, most significant first.
pub open spec fn hex_digits(x: nat, count: nat) -> Seq<char>
    decreases count,
{
    if count == 0 {
        Seq::empty()
    } else {
        hex_digits(x / 16, (count - 1) as nat).push(hex_digit((x % 16) as int))
    }
}

/// The hyphenated lower-case text of a UUID: its 32 hexadecimal digits,
/// most significant first, in groups of 8, 4, 4, 4 and 12 joined by `-`.
pub open spec fn hyphenated(id: u128) -> Seq<char> {
    let d = hex_digits(id as nat, 32);
    d.subrange(0, 8) + seq!['-'] + d.subrange(8, 12) + seq!['-'] + d.subrange(12, 16) + seq!['-']
        + d.subrange(16, 20) + seq!['-'] + d.subrange(20, 32)
}

/// A parse result that gives back the UUID whose hyphenated text was read.
pub open spec fn reads_back<E>(text: Seq<char>, res: Result<u128, E>) -> bool {
    forall|id: u128| #[trigger] hyphenated(id) == text ==> res == Ok::<u128, E>(id)
}

/// The hexadecimal digits of a number are that many ASCII characters.
pub proof fn lemma_hex_digits_ascii(x: nat, count: nat)
    ensures
        hex_digits(x, count).len() == count,
        vstd::utf8::is_ascii_chars(hex_digits(x, count)),
    decreases count,
{
    if count > 0 {
        lemma_hex_digits_ascii(x / 16, (count - 1) as nat);
        let d = (x % 16) as int;
        let c = hex_digit(d);
        assert('\0' <= c <= '\u{7f}');
        let s = hex_digits(x, count);
        let t = hex_digits(x / 16, (count - 1) as nat);
        assert forall|i: int| 0 <= i < s.len() implies '\0' <= #[trigger] s[i] <= '\u{7f}' by {
            if i < t.len() {
                assert(s[i] == t[i]);
            }
        }
    }
}

/// The text of a UUID is 36 ASCII characters, so its UTF-8 bytes are 36.
pub proof fn lemma_hyphenated_bytes(id: u128)
    ensures
        hyphenated(id).len() == 36,
        vstd::utf8::is_ascii_chars(hyphenated(id)),
        vstd::utf8::encode_utf8(hyphenated(id)).len() == 36,
{
    let d = hex_digits(id as nat, 32);
    lemma_hex_digits_ascii(id as nat, 32);
    let h = hyphenated(id);
    assert(h.len() == 36);
    assert forall|i: int| 0 <= i < h.len() implies '\0' <= #[trigger] h[i] <= '\u{7f}' by {
        if i < 8 {
            assert(h[i] == d[i]);
        } else if i == 8 || i == 13 || i == 18 || i == 23 {
            assert(h[i] == '-');
        } else if i < 13 {
            assert(h[i] == d[i - 1]);
        } else if i < 18 {
            assert(h[i] == d[i - 2]);
        } else if i < 23 {
            assert(h[i] == d[i - 3]);
        } else {
            assert(h[i] == d[i - 4]);
        }
    }
    vstd::utf8::is_ascii_chars_encode_utf8(h);
}

/// The UUID that `uuid::Uuid::parse_str` reads from `text`, if it reads one.
pub uninterp spec fn uuid_from_text(text: Seq<char>) -> Option<u128>;

/// The text of a UUID as `uuid::Uuid`'s `Display` writes it.
///
/// Trusted: `Uuid::from_u128(id).to_string()` is the hyphenated lower-case
/// form of the 128-bit value, most significant digit first (the `Display`
/// impl formats `as_hyphenated()` with lower-case digits).
#[verifier::external_body]
pub(crate) fn uuid_text(id: u128) -> (res: String)
    ensures
        res@ == hyphenated(id),
{
    uuid::Uuid::from_u128(id).to_string()
}

/// A version-7 UUID: version nibble 7 and the RFC 4122 variant bits `10`.
pub open spec fn is_version7(id: u128) -> bool {
    &&& (id >> 76u128) & 0xfu128 == 7
    &&& (id >> 62u128) & 0x3u128 == 2
}

/// Issues good identifiers: version-7 UUIDs, each greater than the one
/// before. It remembers the last identifier it issued; only `next_uuid_v7`
/// sets it, so it always holds an identifier that `Uuid::now_v7` gave in
/// this process.
pub struct IdGenerator {
    last: Option<u128>,
}

impl IdGenerator {
    /// The last identifier issued, if any.
    pub closed spec fn last_issued(&self) -> Option<u128> {
        self.last
    }

    /// A generator that has issued nothing yet.
    pub fn new() -> (res: IdGenerator)
        ensures
            res.last_issued() is None,
    {
        IdGenerator { last: None }
    }

    /// A new good identifier: a version-7 UUID, greater than every one this
    /// generator issued before.
    pub fn next(&mut self) -> (res: u128)
        ensures
            is_version7(res),
            final(self).last_issued() == Some(res),
            old(self).last_issued() matches Some(p) ==> p < res,
    {
        next_uuid_v7(self)
    }
}

/// A new identifier from `uuid::Uuid::now_v7`, recorded as the generator's
/// last one.
///
/// Trusted: the identifier is a version-7 UUID (the crate sets its version
/// and variant bits), and it is greater than the generator's last one: the
/// crate documents that the UUIDs `now_v7` makes in one process are ordered
/// by creation (its shared context never lets the timestamp go back and
/// increments the counter within a millisecond), and the generator's last
/// identifier came from `now_v7` in this process. The value otherwise rests
/// on the clock and on random bits.
#[verifier::external_body]
fn next_uuid_v7(gen: &mut IdGenerator) -> (res: u128)
    ensures
        is_version7(res),
        final(gen).last_issued() == Some(res),
        old(gen).last_issued() matches Some(p) ==> p < res,
{
    let id = uuid::Uuid::now_v7().as_u128();
    gen.last = Some(id);
    id
}

/// Reads a UUID from text with `uuid::Uuid::parse_str`.
///
/// Trusted: the result is the named function `uuid_from_text` of the text,
/// and the hyphenated lower-case text that `Display` writes reads back as the
/// same UUID (the crate documents that every format it writes is parsed).
/// Which other texts it accepts is left to the name.
#[verifier::external_body]
fn parse_uuid(text: &str) -> (res: Result<u128, uuid::Error>)
    ensures
        res is Ok <==> uuid_from_text(text@) is Some,
        res matches Ok(v) ==> uuid_from_text(text@) == Some(v),
        reads_back(text@, res),
{
    uuid::Uuid::parse_str(text).map(|u| u.as_u128())
}

/// The string that the member `key` of a JSON value holds, if that member
/// exists and is a string.
pub uninterp spec fn json_str_member(value: serde_json::Value, key: Seq<char>) -> Option<Seq<char>>;

/// The string member `key` of a JSON value, as `value[key].as_str()` gives
/// it (indexing a missing member, or a value that is no object, gives JSON
/// null, whose `as_str` is `None`; it never panics).
///
/// Trusted: the result is the named function `json_str_member` of the value
/// and the key.
#[verifier::external_body]
fn json_str_field<'a>(value: &'a serde_json::Value, key: &str) -> (res: Option<&'a str>)
    ensures
        match res {
            Some(t) => json_str_member(*value, key@) == Some(t@),
            None => json_str_member(*value, key@) is None,
        },
{
    value[key].as_str()
}

/// The good identifier that a request's text gives: no text is an empty
/// identifier, a text that is no UUID is invalid.
pub open spec fn spec_good_id(text: Option<Seq<char>>) -> Result<u128, ApiError> {
    match text {
        None => Err(ApiError::EmptyUuid),
        Some(t) => match uuid_from_text(t) {
            Some(v) => Ok(v),
            None => Err(ApiError::InvalidUuid),
        },
    }
}

/// Reads a good identifier from the `good_id` text of a request. The text a
/// good's identifier is written as reads back as that identifier.
pub fn parse_good_id(text: Option<&str>) -> (res: Result<u128, ApiError>)
    ensures
        res == spec_good_id(
            match text {
                Some(t) => Some(t@),
                None => None,
            },
        ),
        forall|id: u128| (text matches Some(t) && #[trigger] hyphenated(id) == t@) ==> res == Ok::<u128, ApiError>(id),
{
    match text {
        None => Err(ApiError::EmptyUuid),
        Some(t) => match parse_uuid(t) {
            Ok(v) => Ok(v),
            Err(_) => Err(ApiError::InvalidUuid),
        },
    }
}

/// Reads the good identifier of a request's JSON body: the string member
/// `good_id`, read as a UUID.
pub fn good_id_from_payload(payload: &serde_json::Value) -> (res: Result<u128, ApiError>)
    ensures
        res == spec_good_id(json_str_member(*payload, "good_id"@)),
{
    let text = json_str_field(payload, "good_id");
    parse_good_id(text)
}

/// The text a good's identifier is written as: hyphenated, lower case.
pub fn good_id_text(id: u128) -> (res: String)
    ensures
        res@ == hyphenated(id),
{
    uuid_text(id)
}

} // verus!
