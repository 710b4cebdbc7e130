//! The text side of reading a CSS colour such as `rgba(93, 62, 21, 0.5)`:
//! the comma-separated fields between the brackets.

use vstd::prelude::*;
use crate::string::{substring_spec, StringOperations};
use crate::text::{chars_of, find_at, find_from, lemma_find_from, string_of, string_of_range};

verus! {

/// `s` without its spaces.
pub open spec fn without_spaces(s: Seq<char>) -> Seq<char>
    decreases s.len(),
{
    if s.len() == 0 {
        s
    } else if s.last() == ' ' {
        without_spaces(s.drop_last())
    } else {
        without_spaces(s.drop_last()).push(s.last())
    }
}

/// The pieces of `s` from `next` on between the occurrences of the one-character
/// separator `sep`, empty pieces included (what `str::split` yields).
pub open spec fn split_all_from(s: Seq<char>, sep: char, next: int) -> Seq<Seq<char>>
    decreases s.len() + 1 - next,
{
    if next < 0 || next > s.len() {
        Seq::empty()
    } else {
        proof {
            lemma_find_from(s, seq![sep], next);
        }
        match find_from(s, seq![sep], next) {
            None => seq![s.subrange(next, s.len() as int)],
            Some(i) => seq![s.subrange(next, i)] + split_all_from(s, sep, i + 1),
        }
    }
}

/// The first index from `k` on at which the byte `x` stands in `b`.
pub open spec fn first_byte_from(b: Seq<u8>, x: u8, k: int) -> Option<int>
    decreases b.len() - k,
{
    if k < 0 || k >= b.len() {
        None
    } else if b[k] == x {
        Some(k)
    } else {
        first_byte_from(b, x, k + 1)
    }
}

/// Where `str::find` finds the one-byte character `x` in the text whose UTF-8
/// bytes are `b`: the byte position of its first occurrence.
pub open spec fn byte_find(b: Seq<u8>, x: u8) -> Option<int> {
    first_byte_from(b, x, 0)
}

/// The byte position just after the first `(` of the colour once its spaces
/// are removed, and the byte position just before its first `)`.
pub open spec fn field_bounds(color: Seq<char>) -> (int, int) {
    let b = vstd::utf8::encode_utf8(without_spaces(color));
    (byte_find(b, 0x28u8).unwrap() + 1, byte_find(b, 0x29u8).unwrap() - 1)
}

/// The colour's text can be read: once its spaces are removed it holds a `(`
/// and a `)` that is not its first byte, and where the bounds are in order the
/// later one names a character (the bounds are byte positions, used to count
/// characters; on ASCII text the two agree).
pub open spec fn rgba_fields_ok(color: Seq<char>) -> bool {
    let b = vstd::utf8::encode_utf8(without_spaces(color));
    let (start, end) = field_bounds(color);
    &&& byte_find(b, 0x28u8) is Some
    &&& byte_find(b, 0x29u8) matches Some(close) && close >= 1
    &&& start <= end ==> end < without_spaces(color).len()
}

/// The fields of a colour: with the spaces removed, the characters from the
/// position just after the first `(` through the one just before the first
/// `)`, split at every comma. The positions are the byte positions at which
/// the brackets stand.
pub open spec fn rgba_fields_spec(color: Seq<char>) -> Seq<Seq<char>> {
    let (start, end) = field_bounds(color);
    split_all_from(substring_spec(without_spaces(color), start, end), ',', 0)
}

/// The byte position of the first byte `x` in `b`, if any.
fn first_byte(b: &[u8], x: u8) -> (r: Option<usize>)
    ensures
        r matches Some(i) ==> byte_find(b@, x) == Some(i as int) && i < b@.len(),
        r is None ==> byte_find(b@, x) is None,
{
    let mut k: usize = 0;
    while k < b.len()
        invariant
            k <= b.len(),
            byte_find(b@, x) == first_byte_from(b@, x, k as int),
        decreases b.len() - k,
    {
        if b[k] == x {
            return Some(k);
        }
        k = k + 1;
    }
    None
}

/// The number fields of a colour written `rgb(..)` or `rgba(..)`, as text.
pub fn rgba_fields(color: &str) -> (fields: Vec<String>)
    requires
        rgba_fields_ok(color@),
    ensures
        fields@.map_values(|f: String| f@) == rgba_fields_spec(color@),
{
    let chars = chars_of(color);
    let mut compact: Vec<char> = Vec::new();
    let mut i: usize = 0;
    while i < chars.len()
        invariant
            i <= chars.len(),
            compact@ == without_spaces(chars@.subrange(0, i as int)),
        decreases chars.len() - i,
    {
        assert(chars@.subrange(0, i + 1).drop_last() =~= chars@.subrange(0, i as int));
        if chars[i] != ' ' {
            compact.push(chars[i]);
        }
        i = i + 1;
    }
    assert(chars@.subrange(0, chars.len() as int) =~= chars@);
    assert(compact@ == without_spaces(color@));
    let compact_string = string_of(&compact);
    let bytes = compact_string.as_str().as_bytes();
    let open_at = first_byte(bytes, 0x28u8).unwrap();
    let close_at = first_byte(bytes, 0x29u8).unwrap();
    assert(open_at < bytes.len());
    let start = open_at + 1;
    let end = close_at - 1;
    let rgba = compact_string.substring(start, end);
    let rgba_chars = chars_of(rgba.as_str());
    let ghost inner = rgba_chars@;
    assert(inner == substring_spec(without_spaces(color@), start as int, end as int));
    assert(split_all_from(inner, ',', 0) == rgba_fields_spec(color@));
    let mut fields: Vec<String> = Vec::new();
    let mut next: usize = 0;
    let comma = vec![','];
    assert(comma@ =~= seq![',']);
    loop
        invariant
            next <= rgba_chars.len(),
            comma@ == seq![','],
            inner == rgba_chars@,
            split_all_from(inner, ',', 0) == rgba_fields_spec(color@),
            split_all_from(inner, ',', 0) == fields@.map_values(|f: String| f@) + split_all_from(inner, ',', next as int),
        decreases rgba_chars.len() - next,
    {
        proof {
            lemma_find_from(inner, comma@, next as int);
        }
        let ghost before = fields@;
        match find_at(&rgba_chars, &comma, next) {
            Some(at) => {
                let piece = string_of_range(&rgba_chars, next, at);
                fields.push(piece);
                assert(fields@.map_values(|f: String| f@) =~= before.map_values(|f: String| f@).push(piece@));
                next = at + 1;
            },
            None => {
                let piece = string_of_range(&rgba_chars, next, rgba_chars.len());
                fields.push(piece);
                assert(fields@.map_values(|f: String| f@) =~= before.map_values(|f: String| f@).push(piece@));
                assert(split_all_from(inner, ',', 0) =~= fields@.map_values(|f: String| f@));
                return fields;
            },
        }
    }
}

} // verus!
