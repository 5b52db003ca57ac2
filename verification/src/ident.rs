use vstd::prelude::*;

verus! {

/// The lower-case hexadecimal digit of a number below sixteen.
pub open spec fn hex_digit(n: int) -> char {
    if n < 10 {
        (('0' as int) + n) as char
    } else {
        (('a' as int) + n - 10) as char
    }
}

/// The `k`-th of the 32 hexadecimal digits of `id`, the most significant first.
pub open spec fn nibble(id: u128, k: int) -> int {
    ((id as int) / vstd::arithmetic::power::pow(16, (31 - k) as nat)) % 16
}

/// The number of the digit that stands at position `p` of the hyphenated form.
pub open spec fn digit_at(p: int) -> int {
    if p < 8 {
        p
    } else if p < 13 {
        p - 1
    } else if p < 18 {
        p - 2
    } else if p < 23 {
        p - 3
    } else {
        p - 4
    }
}

/// The hyphenated form of a UUID: 32 lower-case hexadecimal digits, most
/// significant first, in groups of 8, 4, 4, 4 and 12 joined by `-`.
pub open spec fn uuid_hyphenated(id: u128) -> Seq<char> {
    Seq::new(
        36,
        |p: int|
            if p == 8 || p == 13 || p == 18 || p == 23 {
                '-'
            } else {
                hex_digit(nibble(id, digit_at(p)))
            },
    )
}

/// A version-4 UUID: version nibble 4 and variant bits `10`.
pub open spec fn is_v4_id(id: u128) -> bool {
    &&& (id >> 76u128) & 0xfu128 == 4
    &&& (id >> 62u128) & 0x3u128 == 2
}

/// What `uuid::Uuid::parse_str` gives for a text, as the number of the UUID.
pub uninterp spec fn uuid_parse(text: Seq<char>) -> Option<u128>;

/// The number that sixteen bytes write, the first byte most significant.
pub open spec fn big_endian(b: Seq<u8>) -> int
    decreases b.len(),
{
    if b.len() == 0 {
        0
    } else {
        big_endian(b.drop_last()) * 256 + b.last()
    }
}

/// The bits of a UUID that the version and variant leave free.
pub open spec fn free_bits(id: u128) -> u128 {
    id & 0xffff_ffff_ffff_0fff_3fff_ffff_ffff_ffffu128
}

/// A version-4 UUID made from sixteen random bytes:
/// `uuid::Builder::from_random_bytes`, then `into_uuid`, as its number.
///
/// Trusted: the result is the bytes read big-endian, with the version nibble
/// set to 4 and the variant bits to `10` (the crate's `with_version` and
/// `with_variant` on bytes 6 and 8), every other bit as the bytes give it.
#[verifier::external_body]
fn v4_from_bytes(bytes: [u8; 16]) -> (id: u128)
    ensures
        is_v4_id(id),
        free_bits(id) == free_bits(big_endian(bytes@) as u128),
{
    uuid::Builder::from_random_bytes(bytes).into_uuid().as_u128()
}

/// A fresh random version-4 identifier, from sixteen bytes of the system's
/// random source; `None` where the source does not answer.
pub fn random_id() -> (r: Option<u128>)
    ensures
        r matches Some(id) ==> is_v4_id(id),
{
    let bytes = match crate::crypto::random_bytes(16) {
        Ok(b) => b,
        Err(_) => {
            return None;
        },
    };
    let mut arr = [0u8; 16];
    for i in 0..16
        invariant
            bytes@.len() == 16,
    {
        arr[i] = bytes[i];
    }
    Some(v4_from_bytes(arr))
}

/// `uuid::Uuid::parse_str` on a text, giving the number of the UUID it reads.
///
/// Trusted: the result is the named result `uuid_parse` of the text; the
/// hyphenated form of an identifier reads back as that identifier (the crate
/// parses 36 hexadecimal-and-hyphen characters into the 16 bytes, big-endian,
/// that `as_u128` reads); and a text that is not 32, 36, 38 or 45 characters
/// long is refused. The crate refuses every byte length but those four, and
/// every form it reads is ASCII, so a text it reads has as many characters as
/// bytes.
#[verifier::external_body]
pub(crate) fn parse_id(text: &str) -> (r: Option<u128>)
    ensures
        r == uuid_parse(text@),
        forall|id: u128| text@ == #[trigger] uuid_hyphenated(id) ==> r == Some(id),
        !(text@.len() == 32 || text@.len() == 36 || text@.len() == 38 || text@.len() == 45)
            ==> r is None,
{
    match uuid::Uuid::parse_str(text) {
        Ok(id) => Some(id.as_u128()),
        Err(_) => None,
    }
}

/// The hyphenated lower-case text of an identifier: `uuid::Uuid`'s `Display`.
///
/// Trusted: the crate writes the 16 big-endian bytes of `from_u128` as 32
/// lower-case hexadecimal digits with hyphens after the 8th, 12th, 16th and
/// 20th digit.
#[verifier::external_body]
pub(crate) fn id_text(id: u128) -> (r: String)
    ensures
        r@ == uuid_hyphenated(id),
{
    uuid::Uuid::from_u128(id).hyphenated().to_string()
}

} // verus!
