//! Document identifiers: twelve bytes, written as twenty-four hex digits.

use vstd::prelude::*;
use vstd::std_specs::cmp::PartialEqSpecImpl;

verus! {

/// The identifier of a document: twelve bytes.
#[derive(Clone, Copy, Debug, Eq, Hash)]
pub struct ObjectId {
    pub bytes: [u8; 12],
}

impl PartialEq for ObjectId {
    fn eq(&self, other: &ObjectId) -> (out: bool) {
        let mut i: usize = 0;
        while i < 12
            invariant
                i <= 12,
                forall|k: int| 0 <= k < i ==> self.bytes@[k] == other.bytes@[k],
            decreases 12 - i,
        {
            if self.bytes[i] != other.bytes[i] {
                return false;
            }
            i += 1;
        }
        proof {
            assert(self.bytes@ =~= other.bytes@);
        }
        true
    }
}

impl PartialEqSpecImpl for ObjectId {
    open spec fn obeys_eq_spec() -> bool {
        true
    }

    open spec fn eq_spec(&self, other: &ObjectId) -> bool {
        self.bytes@ == other.bytes@
    }
}

/// Two identifiers with the same bytes are the same identifier.
pub proof fn lemma_same_bytes(a: ObjectId, b: ObjectId)
    requires
        a.bytes@ == b.bytes@,
    ensures
        a == b,
{
    assert(a.bytes@ =~= b.bytes@);
    assert(a.bytes == b.bytes);
}

/// The identifier with the bytes `bytes`.
pub open spec fn id_with(bytes: Seq<u8>) -> ObjectId {
    choose|id: ObjectId| id.bytes@ == bytes
}

/// An identifier is the identifier with its bytes.
pub proof fn lemma_id_with(id: ObjectId)
    ensures
        id_with(id.bytes@) == id,
{
    lemma_same_bytes(id_with(id.bytes@), id);
}

/// The lower-case hex digit of a value below sixteen.
pub open spec fn hex_digit(n: int) -> char {
    if n < 10 {
        (n + 48) as char
    } else {
        (n + 87) as char
    }
}

/// The value of a hex digit of either case, if `c` is one.
pub open spec fn hex_value(c: char) -> Option<int> {
    if '0' <= c && c <= '9' {
        Some(c as int - 48)
    } else if 'a' <= c && c <= 'f' {
        Some(c as int - 87)
    } else if 'A' <= c && c <= 'F' {
        Some(c as int - 55)
    } else {
        None
    }
}

/// The hex form of `bytes`: two lower-case digits for each byte, the high
/// half first.
pub open spec fn hex_of(bytes: Seq<u8>) -> Seq<char> {
    Seq::new(
        2 * bytes.len(),
        |i: int|
            if i % 2 == 0 {
                hex_digit(bytes[i / 2] as int / 16)
            } else {
                hex_digit(bytes[i / 2] as int % 16)
            },
    )
}

/// Whether `s` is the hex form, in either case, of twelve bytes.
pub open spec fn is_hex_id(s: Seq<char>) -> bool {
    &&& s.len() == 24
    &&& forall|i: int| 0 <= i < 24 ==> hex_value(#[trigger] s[i]) is Some
}

/// The byte at position `i` that the hex digits of `s` spell.
pub open spec fn hex_byte(s: Seq<char>, i: int) -> int {
    hex_value(s[2 * i])->0 * 16 + hex_value(s[2 * i + 1])->0
}

/// Whether `s` is a hex form of `id`: twenty-four hex digits, of either
/// case, that spell its bytes.
pub open spec fn spells(s: Seq<char>, id: ObjectId) -> bool {
    &&& is_hex_id(s)
    &&& forall|i: int| 0 <= i < 12 ==> #[trigger] id.bytes@[i] as int == hex_byte(s, i)
}

/// A text is a hex form of one identifier at most.
pub proof fn lemma_spells_one(s: Seq<char>, a: ObjectId, b: ObjectId)
    requires
        spells(s, a),
        spells(s, b),
    ensures
        a == b,
{
    assert forall|i: int| 0 <= i < 12 implies a.bytes@[i] == b.bytes@[i] by {
        assert(a.bytes@[i] as int == hex_byte(s, i));
        assert(b.bytes@[i] as int == hex_byte(s, i));
    }
    assert(a.bytes@ =~= b.bytes@);
    lemma_same_bytes(a, b);
}

/// Reads twenty-four hex digits as twelve bytes. The body calls
/// `mongodb::bson::oid::ObjectId::parse_str`, which decodes the text with
/// `hex::decode`: that accepts the digits `0`-`9`, `a`-`f` and `A`-`F`,
/// pairs them high half first, and fails on any other character and on any
/// length but twenty-four.
#[verifier::external_body]
fn decode_hex_id(s: &str) -> (out: Option<[u8; 12]>)
    ensures
        out is Some <==> is_hex_id(s@),
        out matches Some(bytes) ==> forall|i: int|
            0 <= i < 12 ==> #[trigger] bytes@[i] as int == hex_byte(s@, i),
{
    match mongodb::bson::oid::ObjectId::parse_str(s) {
        Ok(id) => Some(id.bytes()),
        Err(_) => None,
    }
}

/// Writes twelve bytes as twenty-four lower-case hex digits. The body calls
/// `mongodb::bson::oid::ObjectId::to_hex`, which is `hex::encode` on the
/// bytes: two digits of `0123456789abcdef` for each byte, the high half
/// first.
#[verifier::external_body]
fn encode_hex_id(bytes: [u8; 12]) -> (out: String)
    ensures
        out@ == hex_of(bytes@),
{
    mongodb::bson::oid::ObjectId::from_bytes(bytes).to_hex()
}

/// The bytes of a new identifier. The body calls
/// `mongodb::bson::oid::ObjectId::new`, which makes an identifier of the
/// seconds since 1970, five bytes drawn once for the process and a count of
/// the identifiers made; it does not return where the clock of the machine
/// stands before 1970 or after 2105. Nothing is stated of the bytes.
#[verifier::external_body]
fn fresh_bytes() -> (out: [u8; 12]) {
    mongodb::bson::oid::ObjectId::new().bytes()
}

impl ObjectId {
    /// A new identifier, made of the time, of what was drawn for the
    /// process and of a count. Nothing is known of it: whether a store
    /// holds it already is for the store to find.
    pub fn new() -> (out: ObjectId) {
        ObjectId { bytes: fresh_bytes() }
    }

    /// The identifier with the bytes `bytes`.
    pub fn from_bytes(bytes: [u8; 12]) -> (out: ObjectId)
        ensures
            out.bytes == bytes,
    {
        ObjectId { bytes }
    }

    /// The identifier with the bytes `bytes`, if they are twelve.
    pub fn from_slice(bytes: &[u8]) -> (out: Option<ObjectId>)
        ensures
            out is Some <==> bytes@.len() == 12,
            out matches Some(id) ==> id.bytes@ == bytes@ && id == id_with(bytes@),
    {
        if bytes.len() != 12 {
            return None;
        }
        let mut held: [u8; 12] = [0u8; 12];
        let mut i: usize = 0;
        while i < 12
            invariant
                i <= 12,
                bytes@.len() == 12,
                forall|k: int| 0 <= k < i ==> held@[k] == bytes@[k],
            decreases 12 - i,
        {
            held[i] = bytes[i];
            i += 1;
        }
        let id = ObjectId { bytes: held };
        proof {
            assert(id.bytes@ =~= bytes@);
            lemma_id_with(id);
        }
        Some(id)
    }

    /// The bytes of the identifier.
    pub fn to_vec(&self) -> (out: Vec<u8>)
        ensures
            out@ == self.bytes@,
    {
        let mut out: Vec<u8> = Vec::new();
        let mut i: usize = 0;
        while i < 12
            invariant
                i <= 12,
                out@ == self.bytes@.take(i as int),
            decreases 12 - i,
        {
            out.push(self.bytes[i]);
            proof {
                assert(self.bytes@.take(i as int + 1) =~= self.bytes@.take(i as int).push(
                    self.bytes@[i as int],
                ));
            }
            i += 1;
        }
        proof {
            assert(self.bytes@.take(12) =~= self.bytes@);
        }
        out
    }

    /// The identifier that `s` spells in hex, if `s` is twenty-four hex
    /// digits.
    pub fn parse_str(s: &str) -> (out: Option<ObjectId>)
        ensures
            out is Some <==> is_hex_id(s@),
            out matches Some(id) ==> spells(s@, id),
    {
        match decode_hex_id(s) {
            Some(bytes) => Some(ObjectId { bytes }),
            None => None,
        }
    }

    /// The identifier in hex: twenty-four lower-case digits.
    pub fn to_hex(&self) -> (out: String)
        ensures
            out@ == hex_of(self.bytes@),
    {
        encode_hex_id(self.bytes)
    }
}

/// The hex form of an identifier reads back as that identifier.
pub proof fn lemma_hex_round_trip(id: ObjectId)
    ensures
        is_hex_id(hex_of(id.bytes@)),
        forall|i: int| 0 <= i < 12 ==> hex_byte(hex_of(id.bytes@), i) == #[trigger] id.bytes@[i],
        spells(hex_of(id.bytes@), id),
{
    let s = hex_of(id.bytes@);
    assert forall|i: int| 0 <= i < 24 implies hex_value(#[trigger] s[i]) is Some by {
        let b = id.bytes@[i / 2] as int;
        assert(0 <= b / 16 < 16 && 0 <= b % 16 < 16);
    }
    assert forall|i: int| 0 <= i < 12 implies hex_byte(s, i) == #[trigger] id.bytes@[i] by {
        let b = id.bytes@[i] as int;
        assert((2 * i) % 2 == 0 && (2 * i) / 2 == i);
        assert((2 * i + 1) % 2 == 1 && (2 * i + 1) / 2 == i);
        assert(0 <= b / 16 < 16 && 0 <= b % 16 < 16);
        assert(hex_value(hex_digit(b / 16)) == Some(b / 16));
        assert(hex_value(hex_digit(b % 16)) == Some(b % 16));
        assert(b == (b / 16) * 16 + b % 16);
    }
}

/// Different identifiers have different hex forms.
pub proof fn lemma_hex_injective(a: ObjectId, b: ObjectId)
    requires
        hex_of(a.bytes@) == hex_of(b.bytes@),
    ensures
        a == b,
{
    lemma_hex_round_trip(a);
    lemma_hex_round_trip(b);
    assert forall|i: int| 0 <= i < 12 implies a.bytes@[i] == b.bytes@[i] by {
        assert(hex_byte(hex_of(a.bytes@), i) == a.bytes@[i]);
        assert(hex_byte(hex_of(b.bytes@), i) == b.bytes@[i]);
    }
    assert(a.bytes@ =~= b.bytes@);
    lemma_same_bytes(a, b);
}

} // verus!
