//! Fields and their bytes: what the cache holds is a list of fields, each
//! written as a tag and a payload.

use crate::seqs::{lemma_views_push, views};
use vstd::bytes::{
    lemma_auto_spec_u32_to_from_le_bytes, lemma_auto_spec_u64_to_from_le_bytes,
    spec_u32_from_le_bytes, spec_u32_to_le_bytes, spec_u64_from_le_bytes, spec_u64_to_le_bytes,
    u32_from_le_bytes, u32_to_le_bytes, u64_from_le_bytes, u64_to_le_bytes,
};
use vstd::prelude::*;
use vstd::slice::slice_subrange;

verus! {

/// One field: nothing, a number, a text, or bytes.
#[derive(Debug, Clone)]
pub enum Field {
    Absent,
    Int(i64),
    Text(Vec<char>),
    Bytes(Vec<u8>),
}

pub ghost enum FieldView {
    Absent,
    Int(i64),
    Text(Seq<char>),
    Bytes(Seq<u8>),
}

impl View for Field {
    type V = FieldView;

    open spec fn view(&self) -> FieldView {
        match self {
            Field::Absent => FieldView::Absent,
            Field::Int(x) => FieldView::Int(*x),
            Field::Text(s) => FieldView::Text(s@),
            Field::Bytes(b) => FieldView::Bytes(b@),
        }
    }
}

/// Whether a field can be written: its length fits in the eight bytes that
/// hold it.
pub open spec fn field_fits(f: FieldView) -> bool {
    match f {
        FieldView::Absent => true,
        FieldView::Int(_) => true,
        FieldView::Text(s) => s.len() <= u64::MAX,
        FieldView::Bytes(b) => b.len() <= u64::MAX,
    }
}

/// Whether every field of the list can be written.
pub open spec fn fields_fit(fs: Seq<FieldView>) -> bool {
    forall|i: int| 0 <= i < fs.len() ==> field_fits(#[trigger] fs[i])
}

/// A number as eight bytes: shifted to be non-negative, low byte first.
pub open spec fn int_bytes(x: i64) -> Seq<u8> {
    spec_u64_to_le_bytes((x + 0x8000_0000_0000_0000) as u64)
}

/// The characters of `s` as four bytes each, low byte first.
pub open spec fn text_bytes(s: Seq<char>) -> Seq<u8> {
    Seq::new(4 * s.len(), |j: int| spec_u32_to_le_bytes(s[j / 4] as u32)[j % 4])
}

/// The bytes of a field: a tag, then for a number its eight bytes, for a
/// text its length in eight bytes and its characters, for bytes their
/// length in eight bytes and the bytes.
pub open spec fn field_bytes(f: FieldView) -> Seq<u8> {
    match f {
        FieldView::Absent => seq![0u8],
        FieldView::Int(x) => seq![1u8] + int_bytes(x),
        FieldView::Text(s) => seq![2u8] + spec_u64_to_le_bytes(s.len() as u64) + text_bytes(s),
        FieldView::Bytes(b) => seq![3u8] + spec_u64_to_le_bytes(b.len() as u64) + b,
    }
}

/// The bytes of a list of fields: those of each field, one after the
/// other.
pub open spec fn fields_bytes(fs: Seq<FieldView>) -> Seq<u8>
    decreases fs.len(),
{
    if fs.len() == 0 {
        Seq::empty()
    } else {
        fields_bytes(fs.drop_last()) + field_bytes(fs.last())
    }
}

/// Whether `u` is the number of a character.
pub open spec fn is_char_value(u: u32) -> bool {
    u <= 0xd7ff || (0xe000 <= u && u <= 0x10_ffff)
}

/// The character that four bytes at `at` spell.
pub open spec fn char_value_at(bytes: Seq<u8>, at: int) -> u32 {
    spec_u32_from_le_bytes(bytes.subrange(at, at + 4))
}

/// The field at the start of `bytes` and the number of bytes that it
/// takes, if `bytes` starts with a field.
pub open spec fn first_field(bytes: Seq<u8>) -> Option<(FieldView, int)> {
    if bytes.len() == 0 {
        None
    } else if bytes[0] == 0 {
        Some((FieldView::Absent, 1))
    } else if bytes.len() < 9 {
        None
    } else {
        let n = spec_u64_from_le_bytes(bytes.subrange(1, 9));
        if bytes[0] == 1 {
            Some((FieldView::Int((n - 0x8000_0000_0000_0000) as i64), 9))
        } else if bytes[0] == 2 {
            if 9 + 4 * n <= bytes.len() && forall|j: int|
                0 <= j < n ==> is_char_value(#[trigger] char_value_at(bytes, 9 + 4 * j)) {
                Some(
                    (
                        FieldView::Text(
                            Seq::new(n as nat, |j: int| char_value_at(bytes, 9 + 4 * j) as char),
                        ),
                        9 + 4 * n,
                    ),
                )
            } else {
                None
            }
        } else if bytes[0] == 3 {
            if 9 + n <= bytes.len() {
                Some((FieldView::Bytes(bytes.subrange(9, 9 + n)), 9 + n))
            } else {
                None
            }
        } else {
            None
        }
    }
}

/// The fields that `bytes` spell, if they spell a list of fields.
pub open spec fn fields_of(bytes: Seq<u8>) -> Option<Seq<FieldView>>
    decreases bytes.len(),
{
    if bytes.len() == 0 {
        Some(Seq::empty())
    } else {
        match first_field(bytes) {
            Some((f, n)) => if 0 < n <= bytes.len() {
                match fields_of(bytes.skip(n)) {
                    Some(rest) => Some(seq![f] + rest),
                    None => None,
                }
            } else {
                None
            },
            None => None,
        }
    }
}

/// A field that fits is read back from its bytes, whatever follows them.
pub proof fn lemma_first_field(f: FieldView, rest: Seq<u8>)
    requires
        field_fits(f),
    ensures
        first_field(field_bytes(f) + rest) == Some((f, field_bytes(f).len() as int)),
        field_bytes(f).len() > 0,
{
    lemma_auto_spec_u64_to_from_le_bytes();
    lemma_auto_spec_u32_to_from_le_bytes();
    let bytes = field_bytes(f) + rest;
    match f {
        FieldView::Absent => {},
        FieldView::Int(x) => {
            assert(bytes.subrange(1, 9) =~= int_bytes(x));
            assert(0 <= x + 0x8000_0000_0000_0000 <= u64::MAX);
        },
        FieldView::Text(s) => {
            let n = s.len() as u64;
            assert(bytes.subrange(1, 9) =~= spec_u64_to_le_bytes(n));
            assert forall|j: int| 0 <= j < n implies char_value_at(bytes, 9 + 4 * j)
                == s[j] as u32 by {
                let word = spec_u32_to_le_bytes(s[j] as u32);
                assert(bytes.subrange(9 + 4 * j, 13 + 4 * j) =~= word) by {
                    assert forall|k: int| 0 <= k < 4 implies bytes.subrange(
                        9 + 4 * j,
                        13 + 4 * j,
                    )[k] == word[k] by {
                        assert(bytes[9 + 4 * j + k] == text_bytes(s)[4 * j + k]);
                        assert((4 * j + k) / 4 == j && (4 * j + k) % 4 == k);
                    }
                }
            }
            assert forall|j: int| 0 <= j < n implies is_char_value(
                #[trigger] char_value_at(bytes, 9 + 4 * j),
            ) by {
                assert(char_value_at(bytes, 9 + 4 * j) == s[j] as u32);
                vstd::utf8::char_is_scalar(s[j]);
            }
            let read = Seq::new(n as nat, |j: int| char_value_at(bytes, 9 + 4 * j) as char);
            assert forall|j: int| 0 <= j < n implies read[j] == s[j] by {
                assert(char_value_at(bytes, 9 + 4 * j) == s[j] as u32);
                vstd::utf8::char_u32_cast(s[j], s[j] as u32);
            }
            assert(read =~= s);
        },
        FieldView::Bytes(b) => {
            let n = b.len() as u64;
            assert(bytes.subrange(1, 9) =~= spec_u64_to_le_bytes(n));
            assert(bytes.subrange(9, 9 + n) =~= b);
        },
    }
}

proof fn lemma_fields_bytes_front(fs: Seq<FieldView>)
    requires
        fs.len() > 0,
    ensures
        fields_bytes(fs) == field_bytes(fs[0]) + fields_bytes(fs.drop_first()),
    decreases fs.len(),
{
    if fs.len() == 1 {
        assert(fs.drop_last() =~= Seq::empty());
        assert(fs.drop_first() =~= Seq::empty());
        assert(fields_bytes(fs) =~= field_bytes(fs[0]) + fields_bytes(fs.drop_first()));
    } else {
        lemma_fields_bytes_front(fs.drop_last());
        assert(fs.drop_last().drop_first() =~= fs.drop_first().drop_last());
        assert(fs.drop_first().last() == fs.last());
        assert(fields_bytes(fs) =~= field_bytes(fs[0]) + fields_bytes(fs.drop_first()));
    }
}

/// A list of fields that fit is read back from its bytes.
pub proof fn lemma_fields_round_trip(fs: Seq<FieldView>)
    requires
        fields_fit(fs),
    ensures
        fields_of(fields_bytes(fs)) == Some(fs),
    decreases fs.len(),
{
    if fs.len() > 0 {
        let first = fs[0];
        let rest = fs.drop_first();
        lemma_fields_bytes_front(fs);
        lemma_first_field(first, fields_bytes(rest));
        assert(field_fits(first));
        assert forall|i: int| 0 <= i < rest.len() implies field_fits(#[trigger] rest[i]) by {
            assert(rest[i] == fs[i + 1]);
        }
        lemma_fields_round_trip(rest);
        let bytes = fields_bytes(fs);
        let n = field_bytes(first).len() as int;
        assert(bytes.skip(n) =~= fields_bytes(rest));
        assert(seq![first] + rest =~= fs);
    }
}

/// The character with the number `u`, if there is one. The body calls
/// std's `char::from_u32`, which gives the character whose number is `u`
/// and `None` where `u` is the number of no character: a surrogate, or
/// above `0x10FFFF`.
#[verifier::external_body]
fn char_of(u: u32) -> (out: Option<char>)
    ensures
        out is Some <==> is_char_value(u),
        out matches Some(c) ==> c as u32 == u,
{
    char::from_u32(u)
}

/// Appends `more` to `out`.
fn append_bytes(out: &mut Vec<u8>, more: &Vec<u8>)
    ensures
        final(out)@ == old(out)@ + more@,
{
    let mut i: usize = 0;
    while i < more.len()
        invariant
            i <= more.len(),
            out@ == old(out)@ + more@.take(i as int),
        decreases more.len() - i,
    {
        out.push(more[i]);
        proof {
            assert(more@.take(i as int + 1) =~= more@.take(i as int).push(more@[i as int]));
            assert(out@ =~= old(out)@ + more@.take(i as int + 1));
        }
        i += 1;
    }
    proof {
        assert(more@.take(more.len() as int) =~= more@);
    }
}

/// Appends the bytes of `x` to `out`.
fn put_int(out: &mut Vec<u8>, x: i64)
    ensures
        final(out)@ == old(out)@ + int_bytes(x),
{
    let shifted: u64 = (x as i128 + 0x8000_0000_0000_0000i128) as u64;
    let bytes = u64_to_le_bytes(shifted);
    append_bytes(out, &bytes);
}

/// Appends the bytes of the length `n` to `out`.
fn put_len(out: &mut Vec<u8>, n: usize)
    ensures
        final(out)@ == old(out)@ + spec_u64_to_le_bytes(n as u64),
{
    let bytes = u64_to_le_bytes(n as u64);
    append_bytes(out, &bytes);
}

/// Appends the bytes of the characters of `s` to `out`.
fn put_text(out: &mut Vec<u8>, s: &Vec<char>)
    ensures
        final(out)@ == old(out)@ + text_bytes(s@),
{
    let mut j: usize = 0;
    proof {
        lemma_auto_spec_u32_to_from_le_bytes();
        assert(out@ =~= old(out)@ + text_bytes(s@).take(0));
    }
    while j < s.len()
        invariant
            j <= s.len(),
            out@ == old(out)@ + text_bytes(s@).take(4 * j),
        decreases s.len() - j,
    {
        let word = u32_to_le_bytes(s[j] as u32);
        let ghost before = out@;
        append_bytes(out, &word);
        proof {
            lemma_auto_spec_u32_to_from_le_bytes();
            let all = text_bytes(s@);
            assert(all.take(4 * j + 4) =~= all.take(4 * j) + word@) by {
                assert forall|k: int| 4 * j <= k < 4 * j + 4 implies all[k] == word@[k - 4 * j] by {
                    assert(k / 4 == j && k % 4 == k - 4 * j);
                }
            }
            assert(out@ =~= old(out)@ + all.take(4 * (j + 1)));
        }
        j += 1;
    }
    proof {
        assert(text_bytes(s@).take(4 * s.len()) =~= text_bytes(s@));
    }
}

/// Appends the bytes of `f` to `out`.
fn put_field(out: &mut Vec<u8>, f: &Field)
    ensures
        final(out)@ == old(out)@ + field_bytes(f@),
        field_fits(f@),
{
    match f {
        Field::Absent => {
            out.push(0u8);
            proof {
                assert(out@ =~= old(out)@ + field_bytes(f@));
            }
        },
        Field::Int(x) => {
            out.push(1u8);
            put_int(out, *x);
            proof {
                assert(out@ =~= old(out)@ + field_bytes(f@));
            }
        },
        Field::Text(s) => {
            out.push(2u8);
            put_len(out, s.len());
            put_text(out, s);
            proof {
                assert(out@ =~= old(out)@ + field_bytes(f@));
            }
        },
        Field::Bytes(b) => {
            out.push(3u8);
            put_len(out, b.len());
            append_bytes(out, b);
            proof {
                assert(out@ =~= old(out)@ + field_bytes(f@));
            }
        },
    }
}

/// The bytes of a list of fields.
pub fn encode_fields(fields: &Vec<Field>) -> (out: Vec<u8>)
    ensures
        out@ == fields_bytes(views(fields@)),
        fields_fit(views(fields@)),
{
    let ghost all = views(fields@);
    let mut out: Vec<u8> = Vec::new();
    let mut i: usize = 0;
    proof {
        assert(all.take(0) =~= Seq::empty());
    }
    while i < fields.len()
        invariant
            i <= fields.len(),
            all == views(fields@),
            out@ == fields_bytes(all.take(i as int)),
            forall|k: int| 0 <= k < i ==> field_fits(#[trigger] all[k]),
        decreases fields.len() - i,
    {
        proof {
            assert(all.take(i as int + 1).drop_last() =~= all.take(i as int));
            assert(all.take(i as int + 1).last() == fields@[i as int]@);
        }
        put_field(&mut out, &fields[i]);
        i += 1;
    }
    proof {
        assert(all.take(fields.len() as int) =~= all);
    }
    out
}

/// The eight bytes at `at` read as a number.
fn read_u64(bytes: &[u8], at: usize) -> (out: u64)
    requires
        at + 8 <= bytes.len(),
    ensures
        out == spec_u64_from_le_bytes(bytes@.subrange(at as int, at + 8)),
{
    u64_from_le_bytes(slice_subrange(bytes, at, at + 8))
}

/// The characters that `n` groups of four bytes from `at` on spell, if
/// each group is the number of a character.
fn read_text(bytes: &[u8], at: usize, n: usize) -> (out: Option<Vec<char>>)
    requires
        at + 4 * n <= bytes.len(),
    ensures
        out is Some <==> forall|j: int|
            0 <= j < n ==> is_char_value(#[trigger] char_value_at(bytes@, at + 4 * j)),
        out matches Some(s) ==> s@ == Seq::new(
            n as nat,
            |j: int| char_value_at(bytes@, at + 4 * j) as char,
        ),
{
    let mut s: Vec<char> = Vec::new();
    let mut j: usize = 0;
    while j < n
        invariant
            j <= n,
            at + 4 * n <= bytes.len(),
            s.len() == j,
            forall|k: int| 0 <= k < j ==> is_char_value(#[trigger] char_value_at(bytes@, at
                + 4 * k)),
            forall|k: int| 0 <= k < j ==> s@[k] == char_value_at(bytes@, at + 4 * k) as char,
        decreases n - j,
    {
        let u = u32_from_le_bytes(slice_subrange(bytes, at + 4 * j, at + 4 * j + 4));
        match char_of(u) {
            Some(c) => {
                proof {
                    vstd::utf8::char_u32_cast(c, u);
                }
                s.push(c);
            },
            None => {
                proof {
                    assert(!is_char_value(char_value_at(bytes@, at + 4 * j)));
                }
                return None;
            },
        }
        j += 1;
    }
    proof {
        assert(s@ =~= Seq::new(n as nat, |j: int| char_value_at(bytes@, at + 4 * j) as char));
    }
    Some(s)
}

/// The field that starts at `at` and the position after it, if a field
/// starts there.
fn read_field(bytes: &[u8], at: usize) -> (out: Option<(Field, usize)>)
    requires
        at <= bytes.len(),
    ensures
        first_field(bytes@.skip(at as int)) is None ==> out is None,
        first_field(bytes@.skip(at as int)) matches Some((f, n)) ==> out matches Some((g, next))
            && g@ == f && next == at + n && 0 < n && next <= bytes.len(),
{
    let ghost tail = bytes@.skip(at as int);
    if at == bytes.len() {
        return None;
    }
    let tag = bytes[at];
    proof {
        assert(tail[0] == bytes@[at as int]);
    }
    if tag == 0 {
        return Some((Field::Absent, at + 1));
    }
    if bytes.len() - at < 9 {
        return None;
    }
    let n = read_u64(bytes, at + 1);
    proof {
        assert(tail.subrange(1, 9) =~= bytes@.subrange(at + 1, at + 9));
    }
    let room: usize = bytes.len() - at - 9;
    if tag == 1 {
        let x: i64 = (n as i128 - 0x8000_0000_0000_0000i128) as i64;
        Some((Field::Int(x), at + 9))
    } else if tag == 2 {
        if n > (room / 4) as u64 {
            return None;
        }
        let count: usize = n as usize;
        proof {
            assert forall|j: int| 0 <= j < n implies #[trigger] char_value_at(tail, 9 + 4 * j)
                == char_value_at(bytes@, at + 9 + 4 * j) by {
                assert(tail.subrange(9 + 4 * j, 9 + 4 * j + 4) =~= bytes@.subrange(
                    at + 9 + 4 * j,
                    at + 9 + 4 * j + 4,
                ));
            }
        }
        match read_text(bytes, at + 9, count) {
            Some(s) => {
                proof {
                    assert(s@ =~= Seq::new(n as nat, |j: int| char_value_at(tail, 9
                        + 4 * j) as char));
                }
                Some((Field::Text(s), at + 9 + 4 * count))
            },
            None => {
                proof {
                    let j = choose|j: int|
                        0 <= j < count && !is_char_value(
                            #[trigger] char_value_at(bytes@, at + 9 + 4 * j),
                        );
                    assert(!is_char_value(char_value_at(tail, 9 + 4 * j)));
                }
                None
            },
        }
    } else if tag == 3 {
        if n > room as u64 {
            return None;
        }
        let count: usize = n as usize;
        let b = vstd::slice::slice_to_vec(slice_subrange(bytes, at + 9, at + 9 + count));
        proof {
            assert(tail.subrange(9, 9 + n) =~= bytes@.subrange(at + 9, at + 9 + count));
        }
        Some((Field::Bytes(b), at + 9 + count))
    } else {
        None
    }
}

/// The fields that `bytes` spell, if they spell a list of fields.
pub fn decode_fields(bytes: &[u8]) -> (out: Option<Vec<Field>>)
    ensures
        fields_of(bytes@) is None ==> out is None,
        fields_of(bytes@) matches Some(fs) ==> out matches Some(v) && views(v@) == fs,
{
    let mut fields: Vec<Field> = Vec::new();
    let mut at: usize = 0;
    proof {
        assert(bytes@.skip(0) =~= bytes@);
        match fields_of(bytes@) {
            Some(fs) => {
                assert(views(fields@) + fs =~= fs);
            },
            None => {},
        }
    }
    while at < bytes.len()
        invariant
            at <= bytes.len(),
            fields_of(bytes@.skip(at as int)) is None ==> fields_of(bytes@) is None,
            fields_of(bytes@.skip(at as int)) matches Some(rest) ==> fields_of(bytes@) == Some(
                views(fields@) + rest,
            ),
        decreases bytes.len() - at,
    {
        let ghost tail = bytes@.skip(at as int);
        match read_field(bytes, at) {
            Some((f, next)) => {
                proof {
                    let n = next - at;
                    assert(tail.skip(n) =~= bytes@.skip(next as int));
                    lemma_views_push(fields@, f);
                    match fields_of(bytes@.skip(next as int)) {
                        Some(rest) => {
                            assert(views(fields@) + (seq![f@] + rest) =~= views(fields@).push(f@)
                                + rest);
                        },
                        None => {},
                    }
                }
                fields.push(f);
                at = next;
            },
            None => {
                return None;
            },
        }
    }
    proof {
        assert(bytes@.skip(at as int).len() == 0);
        assert(views(fields@) + Seq::<FieldView>::empty() =~= views(fields@));
    }
    Some(fields)
}

} // verus!
