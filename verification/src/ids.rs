//! Identifiers: claim and event ids are 128-bit UUID values, written in
//! the hyphenated lowercase form and read back through the `uuid` crate.
use vstd::prelude::*;
use crate::text::{owned, utf8_len};

verus! {

#[verifier::external_type_specification]
#[verifier::external_body]
pub struct ExUuidError(uuid::Error);

/// The identifier of a claim: the 128-bit value of a UUID.
#[derive(Clone, Copy, PartialEq, Eq, Hash, Debug, Structural)]
pub struct ClaimId(pub u128);

/// The identifier of an outbox event: the 128-bit value of a UUID.
#[derive(Clone, Copy, PartialEq, Eq, Hash, Debug, Structural)]
pub struct EventId(pub u128);

/// A text that does not hold a UUID.
#[derive(Clone, Debug)]
pub struct InvalidUuid {
    pub text: String,
}

/// The `j`-th hexadecimal digit (most significant first) of `v`.
pub open spec fn nibble(v: u128, j: int) -> u128 {
    (v >> ((124 - 4 * j) as u128)) & 15u128
}

pub open spec fn hex_char(n: u128) -> char {
    if n < 10 {
        ((n + 48) as u32) as char
    } else {
        ((n + 87) as u32) as char
    }
}

/// Position of the digit written at character `k` of the hyphenated form.
pub open spec fn digit_index(k: int) -> int {
    if k < 8 {
        k
    } else if k < 13 {
        k - 1
    } else if k < 18 {
        k - 2
    } else if k < 23 {
        k - 3
    } else {
        k - 4
    }
}

pub open spec fn is_hyphen_position(k: int) -> bool {
    k == 8 || k == 13 || k == 18 || k == 23
}

/// The hyphenated lowercase text of a UUID value (8-4-4-4-12 hex digits),
/// as the `uuid` crate's `Display` writes it.
pub open spec fn id_text(v: u128) -> Seq<char> {
    Seq::new(
        36,
        |k: int|
            if is_hyphen_position(k) {
                '-'
            } else {
                hex_char(nibble(v, digit_index(k)))
            },
    )
}

/// The text of a UUID value (see `id_text`).
pub fn uuid_string(v: u128) -> (r: String)
    ensures
        r@ == id_text(v),
{
    let mut s = String::new();
    let mut k: usize = 0;
    let mut j: u32 = 0;
    while k < 36
        invariant
            k <= 36,
            j as int == if k <= 8 {
                k as int
            } else {
                digit_index(k as int) + (if is_hyphen_position(k as int) {
                    1int
                } else {
                    0int
                })
            },
            s@ == id_text(v).take(k as int),
        decreases 36 - k,
    {
        if k == 8 || k == 13 || k == 18 || k == 23 {
            s.push('-');
        } else {
            let shift: u32 = 124 - 4 * j;
            let n: u128 = (v >> shift) & 15u128;
            assert(n < 16) by (bit_vector)
                requires
                    n == (v >> shift) & 15u128,
            ;
            let c = if n < 10 {
                ((n as u8) + 48) as char
            } else {
                ((n as u8) + 87) as char
            };
            assert(j as int == digit_index(k as int));
            assert(n == nibble(v, digit_index(k as int)));
            assert(c == hex_char(n));
            s.push(c);
            j = j + 1;
        }
        k = k + 1;
        assert(s@ =~= id_text(v).take(k as int));
    }
    assert(id_text(v).take(36) =~= id_text(v));
    s
}

/// The simple form of a UUID value: its 32 lowercase hex digits.
pub open spec fn simple_text(v: u128) -> Seq<char> {
    Seq::new(32, |k: int| hex_char(nibble(v, k)))
}

/// One of the forms in which `uuid` writes a UUID value: hyphenated,
/// simple, braced (`{...}` around the hyphenated form) or URN
/// (`urn:uuid:` before the hyphenated form), all in lowercase.
pub open spec fn written_form(v: u128, text: Seq<char>) -> bool {
    ||| text == id_text(v)
    ||| text == simple_text(v)
    ||| text == "{"@ + id_text(v) + "}"@
    ||| text == "urn:uuid:"@ + id_text(v)
}

/// The byte lengths of the forms `uuid` reads: simple (32), hyphenated
/// (36), braced (38) and URN (45); the parser refuses every other length.
pub open spec fn uuid_length(text: Seq<char>) -> bool {
    let n = utf8_len(text);
    n == 32 || n == 36 || n == 38 || n == 45
}

/// What `uuid::Uuid::parse_str` reads from a text: `Some` value for the
/// simple, hyphenated, braced and URN forms, `None` otherwise.
pub uninterp spec fn uuid_parse(text: Seq<char>) -> Option<u128>;

/// Calls `uuid::Uuid::parse_str` and returns the 128-bit value it read.
/// Claimed: the result is the named value `uuid_parse` of the text, and a
/// text in the hyphenated lowercase form that the crate writes is read
/// back as the value it was written from; so is any text in the simple,
/// braced or URN form (the parser accepts 32 hex digits, a hyphenated
/// form, a braced hyphenated form and a `urn:uuid:`-prefixed one), and a
/// text of any other byte length is refused.
#[verifier::external_body]
fn parse_uuid_value(text: &str) -> (r: Result<u128, uuid::Error>)
    ensures
        r is Ok <==> uuid_parse(text@) is Some,
        r is Ok ==> uuid_parse(text@) == Some(r->Ok_0),
        (exists|v: u128| id_text(v) == text@) ==> (r is Ok && id_text(r->Ok_0) == text@),
        (exists|v: u128| #[trigger] written_form(v, text@)) ==> (r is Ok && written_form(
            r->Ok_0,
            text@,
        )),
        !uuid_length(text@) ==> r is Err,
{
    match uuid::Uuid::parse_str(text) {
        Ok(u) => Ok(u.as_u128()),
        Err(e) => Err(e),
    }
}

/// A random (version 4) UUID value of the RFC 4122 variant: its version
/// nibble (bits 76 to 79) is 4 and its two variant bits (62 and 63) are `10`.
pub open spec fn is_random_uuid(v: u128) -> bool {
    (v >> 76u128) & 0xfu128 == 4 && (v >> 62u128) & 0x3u128 == 2
}

/// Calls `uuid::Uuid::new_v4` and returns its 128-bit value. Claimed: the
/// value is a version-4 UUID of the RFC 4122 variant (the crate masks the
/// random bits and sets the version and variant bits); the other bits are
/// random, and nothing is claimed of them.
#[verifier::external_body]
fn fresh_uuid_value() -> (r: u128)
    ensures
        is_random_uuid(r),
{
    uuid::Uuid::new_v4().as_u128()
}

/// Reads a UUID value from text.
pub fn parse_uuid(text: &str) -> (r: Result<u128, InvalidUuid>)
    ensures
        match r {
            Ok(v) => uuid_parse(text@) == Some(v),
            Err(e) => uuid_parse(text@) is None && e.text@ == text@,
        },
        (exists|v: u128| id_text(v) == text@) ==> (r matches Ok(w) && id_text(w) == text@),
        (exists|v: u128| #[trigger] written_form(v, text@)) ==> (r matches Ok(w) && written_form(
            w,
            text@,
        )),
        !uuid_length(text@) ==> r is Err,
{
    match parse_uuid_value(text) {
        Ok(v) => Ok(v),
        Err(_) => Err(InvalidUuid { text: owned(text) }),
    }
}

impl ClaimId {
    /// A fresh random claim id: a version-4 UUID.
    pub fn new() -> (r: ClaimId)
        ensures
            is_random_uuid(r.0),
    {
        ClaimId(fresh_uuid_value())
    }

    /// Reads a claim id from its text.
    pub fn parse(value: &str) -> (r: Result<ClaimId, InvalidUuid>)
        ensures
            match r {
                Ok(id) => uuid_parse(value@) == Some(id.0),
                Err(e) => uuid_parse(value@) is None && e.text@ == value@,
            },
            (exists|v: u128| id_text(v) == value@) ==> (r matches Ok(id) && id_text(id.0)
                == value@),
            (exists|v: u128| #[trigger] written_form(v, value@)) ==> (r matches Ok(id)
                && written_form(id.0, value@)),
            !uuid_length(value@) ==> r is Err,
    {
        match parse_uuid(value) {
            Ok(v) => Ok(ClaimId(v)),
            Err(e) => Err(e),
        }
    }

    /// The hyphenated lowercase text of the id.
    pub fn to_string(&self) -> (r: String)
        ensures
            r@ == id_text(self.0),
    {
        uuid_string(self.0)
    }
}

impl EventId {
    /// A fresh random event id: a version-4 UUID.
    pub fn new() -> (r: EventId)
        ensures
            is_random_uuid(r.0),
    {
        EventId(fresh_uuid_value())
    }

    /// Reads an event id from its text.
    pub fn parse(value: &str) -> (r: Result<EventId, InvalidUuid>)
        ensures
            match r {
                Ok(id) => uuid_parse(value@) == Some(id.0),
                Err(e) => uuid_parse(value@) is None && e.text@ == value@,
            },
            (exists|v: u128| id_text(v) == value@) ==> (r matches Ok(id) && id_text(id.0)
                == value@),
            (exists|v: u128| #[trigger] written_form(v, value@)) ==> (r matches Ok(id)
                && written_form(id.0, value@)),
            !uuid_length(value@) ==> r is Err,
    {
        match parse_uuid(value) {
            Ok(v) => Ok(EventId(v)),
            Err(e) => Err(e),
        }
    }

    /// The hyphenated lowercase text of the id.
    pub fn to_string(&self) -> (r: String)
        ensures
            r@ == id_text(self.0),
    {
        uuid_string(self.0)
    }
}


proof fn lemma_hex_char_injective(n: u128, m: u128)
    requires
        n < 16,
        m < 16,
        hex_char(n) == hex_char(m),
    ensures
        n == m,
{
}

proof fn lemma_digit_equal(a: u128, b: u128, k: int)
    requires
        0 <= k < 36,
        !is_hyphen_position(k),
        id_text(a)[k] == id_text(b)[k],
    ensures
        nibble(a, digit_index(k)) == nibble(b, digit_index(k)),
{
    let sa = ((124 - 4 * digit_index(k)) as u128);
    let na = nibble(a, digit_index(k));
    let nb = nibble(b, digit_index(k));
    assert(na < 16) by (bit_vector)
        requires
            na == (a >> sa) & 15u128,
    ;
    assert(nb < 16) by (bit_vector)
        requires
            nb == (b >> sa) & 15u128,
    ;
    lemma_hex_char_injective(na, nb);
}

/// Law: different UUID values have different texts, so a text read back
/// by `ClaimId::parse` or `EventId::parse` gives the id it was written from.
pub proof fn law_id_text_injective(a: u128, b: u128)
    requires
        id_text(a) == id_text(b),
    ensures
        a == b,
{
    lemma_digit_equal(a, b, 0);
    lemma_digit_equal(a, b, 1);
    lemma_digit_equal(a, b, 2);
    lemma_digit_equal(a, b, 3);
    lemma_digit_equal(a, b, 4);
    lemma_digit_equal(a, b, 5);
    lemma_digit_equal(a, b, 6);
    lemma_digit_equal(a, b, 7);
    lemma_digit_equal(a, b, 9);
    lemma_digit_equal(a, b, 10);
    lemma_digit_equal(a, b, 11);
    lemma_digit_equal(a, b, 12);
    lemma_digit_equal(a, b, 14);
    lemma_digit_equal(a, b, 15);
    lemma_digit_equal(a, b, 16);
    lemma_digit_equal(a, b, 17);
    lemma_digit_equal(a, b, 19);
    lemma_digit_equal(a, b, 20);
    lemma_digit_equal(a, b, 21);
    lemma_digit_equal(a, b, 22);
    lemma_digit_equal(a, b, 24);
    lemma_digit_equal(a, b, 25);
    lemma_digit_equal(a, b, 26);
    lemma_digit_equal(a, b, 27);
    lemma_digit_equal(a, b, 28);
    lemma_digit_equal(a, b, 29);
    lemma_digit_equal(a, b, 30);
    lemma_digit_equal(a, b, 31);
    lemma_digit_equal(a, b, 32);
    lemma_digit_equal(a, b, 33);
    lemma_digit_equal(a, b, 34);
    lemma_digit_equal(a, b, 35);
    assert(a == b) by (bit_vector)
        requires
            (a >> 124u128) & 15u128 == (b >> 124u128) & 15u128,
            (a >> 120u128) & 15u128 == (b >> 120u128) & 15u128,
            (a >> 116u128) & 15u128 == (b >> 116u128) & 15u128,
            (a >> 112u128) & 15u128 == (b >> 112u128) & 15u128,
            (a >> 108u128) & 15u128 == (b >> 108u128) & 15u128,
            (a >> 104u128) & 15u128 == (b >> 104u128) & 15u128,
            (a >> 100u128) & 15u128 == (b >> 100u128) & 15u128,
            (a >> 96u128) & 15u128 == (b >> 96u128) & 15u128,
            (a >> 92u128) & 15u128 == (b >> 92u128) & 15u128,
            (a >> 88u128) & 15u128 == (b >> 88u128) & 15u128,
            (a >> 84u128) & 15u128 == (b >> 84u128) & 15u128,
            (a >> 80u128) & 15u128 == (b >> 80u128) & 15u128,
            (a >> 76u128) & 15u128 == (b >> 76u128) & 15u128,
            (a >> 72u128) & 15u128 == (b >> 72u128) & 15u128,
            (a >> 68u128) & 15u128 == (b >> 68u128) & 15u128,
            (a >> 64u128) & 15u128 == (b >> 64u128) & 15u128,
            (a >> 60u128) & 15u128 == (b >> 60u128) & 15u128,
            (a >> 56u128) & 15u128 == (b >> 56u128) & 15u128,
            (a >> 52u128) & 15u128 == (b >> 52u128) & 15u128,
            (a >> 48u128) & 15u128 == (b >> 48u128) & 15u128,
            (a >> 44u128) & 15u128 == (b >> 44u128) & 15u128,
            (a >> 40u128) & 15u128 == (b >> 40u128) & 15u128,
            (a >> 36u128) & 15u128 == (b >> 36u128) & 15u128,
            (a >> 32u128) & 15u128 == (b >> 32u128) & 15u128,
            (a >> 28u128) & 15u128 == (b >> 28u128) & 15u128,
            (a >> 24u128) & 15u128 == (b >> 24u128) & 15u128,
            (a >> 20u128) & 15u128 == (b >> 20u128) & 15u128,
            (a >> 16u128) & 15u128 == (b >> 16u128) & 15u128,
            (a >> 12u128) & 15u128 == (b >> 12u128) & 15u128,
            (a >> 8u128) & 15u128 == (b >> 8u128) & 15u128,
            (a >> 4u128) & 15u128 == (b >> 4u128) & 15u128,
            (a >> 0u128) & 15u128 == (b >> 0u128) & 15u128,
    ;
}

} // verus!
