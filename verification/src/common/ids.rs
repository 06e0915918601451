//! Entity identifiers. An id is the 128-bit value of a UUID; fresh ids
//! come from `uuid`'s version-4 generator, and ids are parsed from and
//! printed as UUID text through `uuid` as well.

use vstd::prelude::*;

verus! {

/// Every entity (node, edge, hyperedge) is named by the 128-bit value
/// of a UUID.
pub type EntityId = u128;

/// Used by db for trackers that accumulate changes for a caller.
pub type TrackerId = u128;

/// Targets (edges, metaedges, hyperedges) an object can be attached to.
pub type AttachTargetId = u128;

/// A node: an entity carrying an object that is not an edge.
pub type NodeId = u128;

/// An edge: an entity linking two pointees.
pub type EdgeId = u128;

/// A hyperedge: an entity holding a set of pointees.
pub type HyperedgeId = u128;

/// The bits that mark a version-4, RFC 4122 UUID: the version nibble
/// (bits 76..80) and the two variant bits (bits 62..64).
pub open spec fn is_v4_uuid(x: u128) -> bool {
    x & 0x0000_0000_0000_f000_c000_0000_0000_0000u128 == 0x0000_0000_0000_4000_8000_0000_0000_0000u128
}

/// A fresh id from `uuid::Uuid::new_v4`, as its 128-bit value.
///
/// Trusted: the bits are random; the only thing stated is that the
/// version and variant bits are those of a version-4 UUID, which
/// `new_v4` sets on every value it returns.
#[verifier::external_body]
pub(crate) fn fresh_entity_id() -> (id: u128)
    ensures
        is_v4_uuid(id),
{
    uuid::Uuid::new_v4().as_u128()
}

/// The 128-bit value that `uuid::Uuid::parse_str` reads from a text,
/// or `None` where it reports an error.
pub uninterp spec fn uuid_parse(text: Seq<char>) -> Option<u128>;

/// Parse a UUID with `uuid::Uuid::parse_str`.
///
/// Trusted: `parse_str` accepts several UUID spellings (plain hex,
/// hyphenated, braced, URN); its result is named by [`uuid_parse`].
/// Of the hyphenated lower-case form (which `Display` writes), it is
/// stated that it reads back the value it was written from; nothing
/// more is stated of other spellings.
#[verifier::external_body]
pub(crate) fn parse_uuid(text: &str) -> (r: Option<u128>)
    ensures
        r == uuid_parse(text@),
        forall|x: u128| #[trigger] uuid_hyphenated(x) == text@ ==> r == Some(x),
{
    match uuid::Uuid::parse_str(text) {
        Ok(u) => Some(u.as_u128()),
        Err(_) => None,
    }
}

/// The lower-case hexadecimal digit for `n` (`0 <= n < 16`).
pub open spec fn hex_digit(n: int) -> char {
    if n < 10 {
        (('0' as int) + n) as char
    } else {
        (('a' as int) + n - 10) as char
    }
}

/// The `k`-th hexadecimal digit of `x`, counted from the most
/// significant one (`0 <= k < 32`).
pub open spec fn uuid_nibble(x: u128, k: int) -> int {
    ((x >> ((124 - 4 * k) as u128)) & 0xfu128) as int
}

/// Where the `i`-th character of the hyphenated form takes its digit
/// from: characters 8, 13, 18 and 23 are hyphens.
pub open spec fn hyphenated_digit_index(i: int) -> int {
    if i < 8 {
        i
    } else if i < 13 {
        i - 1
    } else if i < 18 {
        i - 2
    } else if i < 23 {
        i - 3
    } else {
        i - 4
    }
}

/// The hyphenated lower-case text of a UUID, like
/// `67e55044-10b1-426f-9247-bb680e5fe0c8`.
pub open spec fn uuid_hyphenated(x: u128) -> Seq<char> {
    Seq::new(
        36,
        |i: int|
            if i == 8 || i == 13 || i == 18 || i == 23 {
                '-'
            } else {
                hex_digit(uuid_nibble(x, hyphenated_digit_index(i)))
            },
    )
}

/// No hexadecimal digit is a slash.
proof fn lemma_hex_digit_not_slash(n: int)
    requires
        0 <= n < 16,
    ensures
        hex_digit(n) != '/',
{
    if n < 10 {
        assert((('0' as int) + n) as char != '/');
    } else {
        assert((('a' as int) + n - 10) as char != '/');
    }
}

/// The hyphenated text of a UUID has 36 characters, none of them a
/// slash.
pub proof fn lemma_hyphenated_no_slash(x: u128)
    ensures
        uuid_hyphenated(x).len() == 36,
        !uuid_hyphenated(x).contains('/'),
{
    assert forall|k: int| 0 <= k < 36 implies #[trigger] uuid_hyphenated(x)[k] != '/' by {
        if !(k == 8 || k == 13 || k == 18 || k == 23) {
            let j = hyphenated_digit_index(k);
            let y = x >> ((124 - 4 * j) as u128);
            assert(y & 0xfu128 <= 15) by (bit_vector);
            lemma_hex_digit_not_slash(uuid_nibble(x, j));
        }
    }
}

/// The text `uuid::Uuid`'s `Display` gives for the id.
///
/// Trusted: `Display` for `Uuid` writes the hyphenated lower-case
/// form of its big-endian bytes, which is the big-endian hexadecimal
/// of the 128-bit value with hyphens after digits 8, 12, 16 and 20.
#[verifier::external_body]
pub(crate) fn uuid_text(id: u128) -> (s: String)
    ensures
        s@ == uuid_hyphenated(id),
{
    uuid::Uuid::from_u128(id).to_string()
}

} // verus!
