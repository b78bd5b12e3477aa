//! Typed property values attached to a node record, their byte layout, and
//! the decoder and encoder for it.
use vstd::prelude::*;
use vstd::utf8::{decode_utf8, encode_utf8, valid_utf8, encode_utf8_valid_utf8, encode_utf8_decode_utf8};
use crate::wire::{bytes16, bytes32, bytes64, le16, le32, le64, lemma_le16_bytes, lemma_le32_bytes, lemma_le64_bytes, read_u8, read_u16, read_u32, read_u64, push_u16, push_u32, push_u64};
use crate::error::{Error, kind_fault};

verus! {

pub const TAG_BOOL: u8 = 67;
pub const TAG_I16: u8 = 89;
pub const TAG_I32: u8 = 73;
pub const TAG_I64: u8 = 76;
pub const TAG_F32: u8 = 70;
pub const TAG_F64: u8 = 68;
pub const TAG_BINARY: u8 = 82;
pub const TAG_STRING: u8 = 83;
pub const TAG_I32_ARRAY: u8 = 105;
pub const TAG_I64_ARRAY: u8 = 108;
pub const TAG_F32_ARRAY: u8 = 102;
pub const TAG_F64_ARRAY: u8 = 100;
pub const TAG_BOOL_ARRAY: u8 = 98;

/// A property value. Floating-point values are held as their IEEE-754 bit
/// patterns.
#[derive(Debug, Clone, PartialEq)]
pub enum Property {
    Bool(bool),
    I16(i16),
    I32(i32),
    I64(i64),
    F32(u32),
    F64(u64),
    Binary(Vec<u8>),
    String(String),
    VecI32(Vec<i32>),
    VecI64(Vec<i64>),
    VecF32(Vec<u32>),
    VecF64(Vec<u64>),
    VecBool(Vec<bool>),
}

/// What a `Property` holds, as mathematical values.
pub enum PropertyValue {
    Bool(bool),
    I16(i16),
    I32(i32),
    I64(i64),
    F32(u32),
    F64(u64),
    Binary(Seq<u8>),
    Str(Seq<char>),
    VecI32(Seq<i32>),
    VecI64(Seq<i64>),
    VecF32(Seq<u32>),
    VecF64(Seq<u64>),
    VecBool(Seq<bool>),
}

impl View for Property {
    type V = PropertyValue;

    open spec fn view(&self) -> PropertyValue {
        match self {
            Property::Bool(b) => PropertyValue::Bool(*b),
            Property::I16(x) => PropertyValue::I16(*x),
            Property::I32(x) => PropertyValue::I32(*x),
            Property::I64(x) => PropertyValue::I64(*x),
            Property::F32(x) => PropertyValue::F32(*x),
            Property::F64(x) => PropertyValue::F64(*x),
            Property::Binary(v) => PropertyValue::Binary(v@),
            Property::String(s) => PropertyValue::Str(s@),
            Property::VecI32(v) => PropertyValue::VecI32(v@),
            Property::VecI64(v) => PropertyValue::VecI64(v@),
            Property::VecF32(v) => PropertyValue::VecF32(v@),
            Property::VecF64(v) => PropertyValue::VecF64(v@),
            Property::VecBool(v) => PropertyValue::VecBool(v@),
        }
    }
}

/// Why a decoding step stopped.
pub enum Fault {
    Eof,
    Magic,
    Utf8,
    Data,
    Unexpected,
    Unimplemented,
}

/// Outcome of decoding one item at a position: the item and the position
/// after it, or the fault and the last good position.
pub type Decoded<T> = Result<(T, int), (Fault, int)>;

pub open spec fn i32s_bytes(v: Seq<i32>) -> Seq<u8> {
    Seq::new(4 * v.len(), |j: int| bytes32(v[j / 4] as u32)[j % 4])
}

pub open spec fn i64s_bytes(v: Seq<i64>) -> Seq<u8> {
    Seq::new(8 * v.len(), |j: int| bytes64(v[j / 8] as u64)[j % 8])
}

pub open spec fn u32s_bytes(v: Seq<u32>) -> Seq<u8> {
    Seq::new(4 * v.len(), |j: int| bytes32(v[j / 4])[j % 4])
}

pub open spec fn u64s_bytes(v: Seq<u64>) -> Seq<u8> {
    Seq::new(8 * v.len(), |j: int| bytes64(v[j / 8])[j % 8])
}

pub open spec fn bools_bytes(v: Seq<bool>) -> Seq<u8> {
    Seq::new(v.len(), |j: int| if v[j] { 1u8 } else { 0u8 })
}

pub open spec fn chunk4(s: Seq<u8>, p: int, i: int) -> Seq<u8> {
    s.subrange(p + 4 * i, p + 4 * i + 4)
}

pub open spec fn chunk8(s: Seq<u8>, p: int, i: int) -> Seq<u8> {
    s.subrange(p + 8 * i, p + 8 * i + 8)
}

/// Array header (element count, encoding 0 = raw, payload length) followed by
/// the raw payload.
pub open spec fn array_bytes(n: nat, payload: Seq<u8>) -> Seq<u8> {
    bytes32(n as u32) + bytes32(0u32) + bytes32(payload.len() as u32) + payload
}

/// Whether the encoder can write the value: every length fits its 32-bit field.
pub open spec fn encodable(v: PropertyValue) -> bool {
    match v {
        PropertyValue::Binary(b) => b.len() <= u32::MAX,
        PropertyValue::Str(c) => encode_utf8(c).len() <= u32::MAX,
        PropertyValue::VecI32(a) => 4 * a.len() <= u32::MAX,
        PropertyValue::VecI64(a) => 8 * a.len() <= u32::MAX,
        PropertyValue::VecF32(a) => 4 * a.len() <= u32::MAX,
        PropertyValue::VecF64(a) => 8 * a.len() <= u32::MAX,
        PropertyValue::VecBool(a) => a.len() <= u32::MAX,
        _ => true,
    }
}

/// The bytes of one property: a type tag, then its payload.
pub open spec fn property_bytes(v: PropertyValue) -> Seq<u8> {
    match v {
        PropertyValue::Bool(b) => seq![TAG_BOOL, if b { 1u8 } else { 0u8 }],
        PropertyValue::I16(x) => seq![TAG_I16] + bytes16(x as u16),
        PropertyValue::I32(x) => seq![TAG_I32] + bytes32(x as u32),
        PropertyValue::I64(x) => seq![TAG_I64] + bytes64(x as u64),
        PropertyValue::F32(x) => seq![TAG_F32] + bytes32(x),
        PropertyValue::F64(x) => seq![TAG_F64] + bytes64(x),
        PropertyValue::Binary(b) => seq![TAG_BINARY] + bytes32(b.len() as u32) + b,
        PropertyValue::Str(c) => seq![TAG_STRING] + bytes32(encode_utf8(c).len() as u32) + encode_utf8(c),
        PropertyValue::VecI32(a) => seq![TAG_I32_ARRAY] + array_bytes(a.len(), i32s_bytes(a)),
        PropertyValue::VecI64(a) => seq![TAG_I64_ARRAY] + array_bytes(a.len(), i64s_bytes(a)),
        PropertyValue::VecF32(a) => seq![TAG_F32_ARRAY] + array_bytes(a.len(), u32s_bytes(a)),
        PropertyValue::VecF64(a) => seq![TAG_F64_ARRAY] + array_bytes(a.len(), u64s_bytes(a)),
        PropertyValue::VecBool(a) => seq![TAG_BOOL_ARRAY] + array_bytes(a.len(), bools_bytes(a)),
    }
}

/// The bytes of a property list, in order.
pub open spec fn properties_bytes(vs: Seq<PropertyValue>) -> Seq<u8>
    decreases vs.len(),
{
    if vs.len() == 0 {
        Seq::empty()
    } else {
        property_bytes(vs[0]) + properties_bytes(vs.drop_first())
    }
}

/// Element width in bytes of an array tag.
pub open spec fn array_width(tag: u8) -> int {
    if tag == TAG_I64_ARRAY || tag == TAG_F64_ARRAY {
        8
    } else if tag == TAG_BOOL_ARRAY {
        1
    } else {
        4
    }
}

pub open spec fn is_array_tag(tag: u8) -> bool {
    tag == TAG_I32_ARRAY || tag == TAG_I64_ARRAY || tag == TAG_F32_ARRAY || tag == TAG_F64_ARRAY
        || tag == TAG_BOOL_ARRAY
}

/// The elements of a raw array payload of `n` elements starting at `p`.
pub open spec fn array_value(s: Seq<u8>, tag: u8, p: int, n: nat) -> PropertyValue {
    if tag == TAG_I32_ARRAY {
        PropertyValue::VecI32(Seq::new(n, |i: int| le32(chunk4(s, p, i)) as i32))
    } else if tag == TAG_I64_ARRAY {
        PropertyValue::VecI64(Seq::new(n, |i: int| le64(chunk8(s, p, i)) as i64))
    } else if tag == TAG_F32_ARRAY {
        PropertyValue::VecF32(Seq::new(n, |i: int| le32(chunk4(s, p, i))))
    } else if tag == TAG_F64_ARRAY {
        PropertyValue::VecF64(Seq::new(n, |i: int| le64(chunk8(s, p, i))))
    } else {
        PropertyValue::VecBool(Seq::new(n, |i: int| s[p + i] != 0))
    }
}

/// What inflating a zlib stream gives: the inflated bytes, or `None` where
/// the stream is not valid.
pub uninterp spec fn inflate_of(b: Seq<u8>) -> Option<Seq<u8>>;

/// The elements of a compressed array, given what its payload inflated to;
/// `at` is where the payload starts.
pub open spec fn inflated_array(tag: u8, n: nat, inflated: Option<Seq<u8>>, at: int) -> Decoded<PropertyValue> {
    match inflated {
        None => Err((Fault::Data, at)),
        Some(raw) => if raw.len() != array_width(tag) * n {
            Err((Fault::Data, at))
        } else {
            Ok((array_value(raw, tag, 0, n), at))
        },
    }
}

/// Decodes an array property whose tag stood at `p - 1`.
pub open spec fn parse_array(s: Seq<u8>, tag: u8, p: int) -> Decoded<PropertyValue> {
    if p + 12 > s.len() {
        Err((Fault::Eof, p))
    } else {
        let n = le32(s.subrange(p, p + 4));
        let enc = le32(s.subrange(p + 4, p + 8));
        let len = le32(s.subrange(p + 8, p + 12));
        if enc == 0 {
            if len != array_width(tag) * n {
                Err((Fault::Data, p))
            } else if p + 12 + len > s.len() {
                Err((Fault::Eof, p + 12))
            } else {
                Ok((array_value(s, tag, p + 12, n as nat), p + 12 + len))
            }
        } else if enc == 1 {
            if p + 12 + len > s.len() {
                Err((Fault::Eof, p + 12))
            } else {
                match inflated_array(tag, n as nat, inflate_of(s.subrange(p + 12, p + 12 + len)), p + 12) {
                    Err(e) => Err(e),
                    Ok((v, _)) => Ok((v, p + 12 + len)),
                }
            }
        } else {
            Err((Fault::Unexpected, p))
        }
    }
}

/// Decodes the property whose tag stands at `pos`.
pub open spec fn parse_property(s: Seq<u8>, pos: int) -> Decoded<PropertyValue> {
    if pos < 0 || pos >= s.len() {
        Err((Fault::Eof, pos))
    } else {
        let tag = s[pos];
        let p = pos + 1;
        if tag == TAG_BOOL {
            if p + 1 > s.len() { Err((Fault::Eof, p)) } else { Ok((PropertyValue::Bool(s[p] != 0), p + 1)) }
        } else if tag == TAG_I16 {
            if p + 2 > s.len() { Err((Fault::Eof, p)) } else {
                Ok((PropertyValue::I16(le16(s.subrange(p, p + 2)) as i16), p + 2))
            }
        } else if tag == TAG_I32 || tag == TAG_F32 {
            if p + 4 > s.len() { Err((Fault::Eof, p)) } else {
                let x = le32(s.subrange(p, p + 4));
                Ok((if tag == TAG_I32 { PropertyValue::I32(x as i32) } else { PropertyValue::F32(x) }, p + 4))
            }
        } else if tag == TAG_I64 || tag == TAG_F64 {
            if p + 8 > s.len() { Err((Fault::Eof, p)) } else {
                let x = le64(s.subrange(p, p + 8));
                Ok((if tag == TAG_I64 { PropertyValue::I64(x as i64) } else { PropertyValue::F64(x) }, p + 8))
            }
        } else if tag == TAG_BINARY || tag == TAG_STRING {
            if p + 4 > s.len() { Err((Fault::Eof, p)) } else {
                let len = le32(s.subrange(p, p + 4));
                if p + 4 + len > s.len() {
                    Err((Fault::Eof, p + 4))
                } else {
                    let b = s.subrange(p + 4, p + 4 + len);
                    if tag == TAG_BINARY {
                        Ok((PropertyValue::Binary(b), p + 4 + len))
                    } else if valid_utf8(b) {
                        Ok((PropertyValue::Str(decode_utf8(b)), p + 4 + len))
                    } else {
                        Err((Fault::Utf8, p + 4))
                    }
                }
            }
        } else if is_array_tag(tag) {
            parse_array(s, tag, p)
        } else {
            Err((Fault::Unexpected, pos))
        }
    }
}

/// Decodes `n` consecutive properties starting at `pos`.
pub open spec fn parse_properties(s: Seq<u8>, pos: int, n: nat) -> Decoded<Seq<PropertyValue>>
    decreases n,
{
    if n == 0 {
        Ok((Seq::empty(), pos))
    } else {
        match parse_property(s, pos) {
            Err(e) => Err(e),
            Ok((v, next)) => match parse_properties(s, next, (n - 1) as nat) {
                Err(e) => Err(e),
                Ok((vs, end)) => Ok((seq![v] + vs, end)),
            },
        }
    }
}

proof fn lemma_cast_i16(x: i16)
    ensures
        (x as u16) as i16 == x,
{
    assert((x as u16) as i16 == x) by (bit_vector);
}

proof fn lemma_cast_i32(x: i32)
    ensures
        (x as u32) as i32 == x,
{
    assert((x as u32) as i32 == x) by (bit_vector);
}

proof fn lemma_cast_i64(x: i64)
    ensures
        (x as u64) as i64 == x,
{
    assert((x as u64) as i64 == x) by (bit_vector);
}

/// The elements of an encoded array decode back to the array.
proof fn lemma_array_round_trip(s: Seq<u8>, p: int, v: PropertyValue)
    requires
        0 <= p,
        match v {
            PropertyValue::VecI32(a) => p + 4 * a.len() <= s.len() && s.subrange(p, p + 4 * a.len()) == i32s_bytes(a),
            PropertyValue::VecI64(a) => p + 8 * a.len() <= s.len() && s.subrange(p, p + 8 * a.len()) == i64s_bytes(a),
            PropertyValue::VecF32(a) => p + 4 * a.len() <= s.len() && s.subrange(p, p + 4 * a.len()) == u32s_bytes(a),
            PropertyValue::VecF64(a) => p + 8 * a.len() <= s.len() && s.subrange(p, p + 8 * a.len()) == u64s_bytes(a),
            PropertyValue::VecBool(a) => p + a.len() <= s.len() && s.subrange(p, p + a.len()) == bools_bytes(a),
            _ => false,
        },
    ensures
        match v {
            PropertyValue::VecI32(a) => array_value(s, TAG_I32_ARRAY, p, a.len()) == v,
            PropertyValue::VecI64(a) => array_value(s, TAG_I64_ARRAY, p, a.len()) == v,
            PropertyValue::VecF32(a) => array_value(s, TAG_F32_ARRAY, p, a.len()) == v,
            PropertyValue::VecF64(a) => array_value(s, TAG_F64_ARRAY, p, a.len()) == v,
            PropertyValue::VecBool(a) => array_value(s, TAG_BOOL_ARRAY, p, a.len()) == v,
            _ => true,
        },
{
    match v {
        PropertyValue::VecI32(a) => {
            assert forall|i: int| 0 <= i < a.len() implies le32(#[trigger] chunk4(s, p, i)) as i32 == a[i] by {
                let e = s.subrange(p, p + 4 * a.len());
                assert(chunk4(s, p, i) =~= e.subrange(4 * i, 4 * i + 4));
                assert(e.subrange(4 * i, 4 * i + 4) =~= bytes32(a[i] as u32));
                lemma_le32_bytes(a[i] as u32);
                lemma_cast_i32(a[i]);
            }
            assert(Seq::new(a.len(), |i: int| le32(chunk4(s, p, i)) as i32) =~= a);
        },
        PropertyValue::VecI64(a) => {
            assert forall|i: int| 0 <= i < a.len() implies le64(#[trigger] chunk8(s, p, i)) as i64 == a[i] by {
                let e = s.subrange(p, p + 8 * a.len());
                assert(chunk8(s, p, i) =~= e.subrange(8 * i, 8 * i + 8));
                assert(e.subrange(8 * i, 8 * i + 8) =~= bytes64(a[i] as u64));
                lemma_le64_bytes(a[i] as u64);
                lemma_cast_i64(a[i]);
            }
            assert(Seq::new(a.len(), |i: int| le64(chunk8(s, p, i)) as i64) =~= a);
        },
        PropertyValue::VecF32(a) => {
            assert forall|i: int| 0 <= i < a.len() implies le32(#[trigger] chunk4(s, p, i)) == a[i] by {
                let e = s.subrange(p, p + 4 * a.len());
                assert(chunk4(s, p, i) =~= e.subrange(4 * i, 4 * i + 4));
                assert(e.subrange(4 * i, 4 * i + 4) =~= bytes32(a[i]));
                lemma_le32_bytes(a[i]);
            }
            assert(Seq::new(a.len(), |i: int| le32(chunk4(s, p, i))) =~= a);
        },
        PropertyValue::VecF64(a) => {
            assert forall|i: int| 0 <= i < a.len() implies le64(#[trigger] chunk8(s, p, i)) == a[i] by {
                let e = s.subrange(p, p + 8 * a.len());
                assert(chunk8(s, p, i) =~= e.subrange(8 * i, 8 * i + 8));
                assert(e.subrange(8 * i, 8 * i + 8) =~= bytes64(a[i]));
                lemma_le64_bytes(a[i]);
            }
            assert(Seq::new(a.len(), |i: int| le64(chunk8(s, p, i))) =~= a);
        },
        PropertyValue::VecBool(a) => {
            assert forall|i: int| 0 <= i < a.len() implies (#[trigger] s[p + i] != 0) == a[i] by {
                assert(s[p + i] == s.subrange(p, p + a.len())[i]);
            }
            assert(Seq::new(a.len(), |i: int| s[p + i] != 0) =~= a);
        },
        _ => {},
    }
}

#[verifier::rlimit(60)]
/// Writing a property and reading it back at the same place gives the same
/// value, and the reading ends right after its bytes, whatever surrounds them.
pub proof fn lemma_property_round_trip(pre: Seq<u8>, v: PropertyValue, post: Seq<u8>)
    requires
        encodable(v),
    ensures
        parse_property(pre + property_bytes(v) + post, pre.len() as int)
            == Ok::<(PropertyValue, int), (Fault, int)>((v, (pre.len() + property_bytes(v).len()) as int)),
{
    let e = property_bytes(v);
    let s = pre + e + post;
    let n = pre.len() as int;
    assert(s[n] == e[0]);
    assert forall|a: int, b: int| 0 <= a <= b <= e.len() implies s.subrange(n + a, n + b) =~= e.subrange(a, b) by {}
    match v {
        PropertyValue::Bool(b) => {
            assert(s[n + 1] == e[1]);
        },
        PropertyValue::I16(x) => {
            lemma_le16_bytes(x as u16);
            lemma_cast_i16(x);
            assert(e.subrange(1, 3) =~= bytes16(x as u16));
        },
        PropertyValue::I32(x) => {
            lemma_le32_bytes(x as u32);
            lemma_cast_i32(x);
            assert(e.subrange(1, 5) =~= bytes32(x as u32));
        },
        PropertyValue::I64(x) => {
            lemma_le64_bytes(x as u64);
            lemma_cast_i64(x);
            assert(e.subrange(1, 9) =~= bytes64(x as u64));
        },
        PropertyValue::F32(x) => {
            lemma_le32_bytes(x);
            assert(e.subrange(1, 5) =~= bytes32(x));
        },
        PropertyValue::F64(x) => {
            lemma_le64_bytes(x);
            assert(e.subrange(1, 9) =~= bytes64(x));
        },
        PropertyValue::Binary(b) => {
            lemma_le32_bytes(b.len() as u32);
            assert(e.subrange(1, 5) =~= bytes32(b.len() as u32));
            assert(e.subrange(5, 5 + b.len() as int) =~= b);
        },
        PropertyValue::Str(c) => {
            let b = encode_utf8(c);
            lemma_le32_bytes(b.len() as u32);
            encode_utf8_valid_utf8(c);
            encode_utf8_decode_utf8(c);
            assert(e.subrange(1, 5) =~= bytes32(b.len() as u32));
            assert(e.subrange(5, 5 + b.len() as int) =~= b);
        },
        _ => {
            let (payload, w, len) = match v {
                PropertyValue::VecI32(a) => (i32s_bytes(a), 4int, a.len()),
                PropertyValue::VecI64(a) => (i64s_bytes(a), 8int, a.len()),
                PropertyValue::VecF32(a) => (u32s_bytes(a), 4int, a.len()),
                PropertyValue::VecF64(a) => (u64s_bytes(a), 8int, a.len()),
                PropertyValue::VecBool(a) => (bools_bytes(a), 1int, a.len()),
                _ => (Seq::empty(), 0int, 0nat),
            };
            lemma_le32_bytes(len as u32);
            lemma_le32_bytes(0u32);
            lemma_le32_bytes(payload.len() as u32);
            assert(e.subrange(1, 5) =~= bytes32(len as u32));
            assert(e.subrange(5, 9) =~= bytes32(0u32));
            assert(e.subrange(9, 13) =~= bytes32(payload.len() as u32));
            assert(e.subrange(13, 13 + payload.len() as int) =~= payload);
            assert(s.subrange(n + 13, n + 13 + payload.len() as int) =~= payload);
            lemma_array_round_trip(s, n + 13, v);
        },
    }
}

/// Writing a list of properties and reading back as many gives the same values
/// in the same order, ending right after their bytes.
pub proof fn lemma_properties_round_trip(pre: Seq<u8>, vs: Seq<PropertyValue>, post: Seq<u8>)
    requires
        forall|i: int| 0 <= i < vs.len() ==> encodable(#[trigger] vs[i]),
    ensures
        parse_properties(pre + properties_bytes(vs) + post, pre.len() as int, vs.len())
            == Ok::<(Seq<PropertyValue>, int), (Fault, int)>((vs, (pre.len() + properties_bytes(vs).len()) as int)),
    decreases vs.len(),
{
    if vs.len() > 0 {
        let rest = vs.drop_first();
        let s = pre + properties_bytes(vs) + post;
        assert(s =~= pre + property_bytes(vs[0]) + (properties_bytes(rest) + post));
        lemma_property_round_trip(pre, vs[0], properties_bytes(rest) + post);
        let pre2 = pre + property_bytes(vs[0]);
        assert(s =~= pre2 + properties_bytes(rest) + post);
        assert forall|i: int| 0 <= i < rest.len() implies encodable(#[trigger] rest[i]) by {
            assert(rest[i] == vs[i + 1]);
        }
        lemma_properties_round_trip(pre2, rest, post);
        assert(seq![vs[0]] + rest =~= vs);
        assert(properties_bytes(vs) == property_bytes(vs[0]) + properties_bytes(rest));
    } else {
        assert(vs =~= Seq::<PropertyValue>::empty());
        assert(properties_bytes(vs) =~= Seq::<u8>::empty());
    }
}

/// Whether an exec result is the decoding outcome `d`.
pub open spec fn decoded_as<T, V>(r: Result<(T, usize), Error>, d: Decoded<V>, view: spec_fn(T) -> V) -> bool {
    match d {
        Ok((v, next)) => r matches Ok((t, n)) && view(t) == v && n == next,
        Err((f, at)) => r matches Err(e) && e.pos == at && kind_fault(e.kind) == f,
    }
}

/// Decodes the raw elements of an array property: `n` elements of the tag's
/// width starting at `p`, which the data holds.
fn decode_array_elements(data: &Vec<u8>, tag: u8, p: usize, n: usize) -> (r: Property)
    requires
        is_array_tag(tag),
        p + array_width(tag) * n <= data@.len(),
    ensures
        r@ == array_value(data@, tag, p as int, n as nat),
{
    let ghost s = data@;
    let dlen = data.len();
    proof {
        let w = array_width(tag);
        assert(p + w * n <= s.len());
        if w == 4 { assert(w * n == 4 * n); }
        if w == 8 { assert(w * n == 8 * n); }
        if w == 1 { assert(w * n == n); }
    }
    if tag == TAG_I32_ARRAY || tag == TAG_F32_ARRAY {
        let mut a: Vec<i32> = Vec::new();
        let mut f: Vec<u32> = Vec::new();
        let mut i: usize = 0;
        while i < n
            invariant
                i <= n,
                p + 4 * n <= s.len(),
                s == data@,
                s.len() == dlen,
                a@ =~= Seq::new(i as nat, |k: int| le32(chunk4(s, p as int, k)) as i32),
                f@ =~= Seq::new(i as nat, |k: int| le32(chunk4(s, p as int, k))),
            decreases n - i,
        {
            assert(p + 4 * i + 4 <= p + 4 * n);
            let x = read_u32(data, p + 4 * i).unwrap();
            proof {
                assert(chunk4(s, p as int, i as int) == s.subrange(p + 4 * i, p + 4 * i + 4));
            }
            a.push(#[verifier::truncate] (x as i32));
            f.push(x);
            i = i + 1;
        }
        if tag == TAG_I32_ARRAY { Property::VecI32(a) } else { Property::VecF32(f) }
    } else if tag == TAG_I64_ARRAY || tag == TAG_F64_ARRAY {
        let mut a: Vec<i64> = Vec::new();
        let mut f: Vec<u64> = Vec::new();
        let mut i: usize = 0;
        while i < n
            invariant
                i <= n,
                p + 8 * n <= s.len(),
                s == data@,
                s.len() == dlen,
                a@ =~= Seq::new(i as nat, |k: int| le64(chunk8(s, p as int, k)) as i64),
                f@ =~= Seq::new(i as nat, |k: int| le64(chunk8(s, p as int, k))),
            decreases n - i,
        {
            assert(p + 8 * i + 8 <= p + 8 * n);
            let x = read_u64(data, p + 8 * i).unwrap();
            proof {
                assert(chunk8(s, p as int, i as int) == s.subrange(p + 8 * i, p + 8 * i + 8));
            }
            a.push(#[verifier::truncate] (x as i64));
            f.push(x);
            i = i + 1;
        }
        if tag == TAG_I64_ARRAY { Property::VecI64(a) } else { Property::VecF64(f) }
    } else {
        let mut a: Vec<bool> = Vec::new();
        let mut i: usize = 0;
        while i < n
            invariant
                i <= n,
                p + n <= s.len(),
                s == data@,
                s.len() == dlen,
                a@ =~= Seq::new(i as nat, |k: int| s[p + k] != 0),
            decreases n - i,
        {
            a.push(data[p + i] != 0);
            i = i + 1;
        }
        Property::VecBool(a)
    }
}

/// Decodes an array property whose tag stood at `p - 1`.
fn decode_array(data: &Vec<u8>, tag: u8, p: usize) -> (r: Result<(Property, usize), Error>)
    requires
        is_array_tag(tag),
        p <= data@.len(),
    ensures
        decoded_as(r, parse_array(data@, tag, p as int), |t: Property| t@),
        r matches Ok((_, e)) ==> e <= data@.len(),
{
    if data.len() - p < 12 {
        return Err(Error::from_fault(p, Fault::Eof));
    }
    let n = read_u32(data, p).unwrap();
    let enc = read_u32(data, p + 4).unwrap();
    let len = read_u32(data, p + 8).unwrap();
    let w: u64 = if tag == TAG_I64_ARRAY || tag == TAG_F64_ARRAY { 8 } else if tag == TAG_BOOL_ARRAY { 1 } else { 4 };
    if enc == 0 {
        if len as u64 != w * (n as u64) {
            Err(Error::from_fault(p, Fault::Data))
        } else if data.len() - (p + 12) < len as usize {
            Err(Error::from_fault(p + 12, Fault::Eof))
        } else {
            let v = decode_array_elements(data, tag, p + 12, n as usize);
            Ok((v, p + 12 + len as usize))
        }
    } else if enc == 1 {
        if data.len() - (p + 12) < len as usize {
            Err(Error::from_fault(p + 12, Fault::Eof))
        } else {
            let payload = copy_range(data, p + 12, p + 12 + len as usize);
            let inflated = inflate(&payload);
            match decode_inflated_array(tag, n, inflated, p + 12) {
                Err(e) => Err(e),
                Ok(v) => Ok((v, p + 12 + len as usize)),
            }
        }
    } else {
        Err(Error::from_fault(p, Fault::Unexpected))
    }
}

/// Relies on `miniz_oxide::inflate::decompress_to_vec_zlib`: the bytes that
/// a zlib stream inflates to, or `None` where the stream is not valid; the
/// result depends on the input alone.
#[verifier::external_body]
fn inflate(b: &Vec<u8>) -> (r: Option<Vec<u8>>)
    ensures
        r is None <==> inflate_of(b@) is None,
        r matches Some(v) ==> inflate_of(b@) == Some(v@),
{
    miniz_oxide::inflate::decompress_to_vec_zlib(b.as_slice()).ok()
}

/// Decodes the elements of a compressed array of `n` elements of the tag's
/// type from what its payload inflated to; `at` is where the payload starts.
pub fn decode_inflated_array(tag: u8, n: u32, inflated: Option<Vec<u8>>, at: usize) -> (r: Result<Property, Error>)
    requires
        is_array_tag(tag),
    ensures
        match inflated_array(tag, n as nat, match inflated { Some(v) => Some(v@), None => None }, at as int) {
            Ok((v, _)) => r matches Ok(t) && t@ == v,
            Err((f, e)) => r matches Err(er) && er.pos == e && kind_fault(er.kind) == f,
        },
{
    let w: u64 = if tag == TAG_I64_ARRAY || tag == TAG_F64_ARRAY { 8 } else if tag == TAG_BOOL_ARRAY { 1 } else { 4 };
    match inflated {
        None => Err(Error::from_fault(at, Fault::Data)),
        Some(raw) => {
            if raw.len() as u64 != w * (n as u64) {
                Err(Error::from_fault(at, Fault::Data))
            } else {
                Ok(decode_array_elements(&raw, tag, 0, n as usize))
            }
        },
    }
}

/// Decodes the property whose type tag stands at `pos`.
pub fn decode_property(data: &Vec<u8>, pos: usize) -> (r: Result<(Property, usize), Error>)
    ensures
        decoded_as(r, parse_property(data@, pos as int), |t: Property| t@),
        r matches Ok((_, e)) ==> e <= data@.len(),
{
    if pos >= data.len() {
        return Err(Error::from_fault(pos, Fault::Eof));
    }
    let tag = data[pos];
    let p = pos + 1;
    if tag == TAG_BOOL {
        match read_u8(data, p) {
            Some(b) => Ok((Property::Bool(b != 0), p + 1)),
            None => Err(Error::from_fault(p, Fault::Eof)),
        }
    } else if tag == TAG_I16 {
        match read_u16(data, p) {
            Some(x) => Ok((Property::I16(#[verifier::truncate] (x as i16)), p + 2)),
            None => Err(Error::from_fault(p, Fault::Eof)),
        }
    } else if tag == TAG_I32 || tag == TAG_F32 {
        match read_u32(data, p) {
            Some(x) => Ok((if tag == TAG_I32 { Property::I32(#[verifier::truncate] (x as i32)) } else { Property::F32(x) }, p + 4)),
            None => Err(Error::from_fault(p, Fault::Eof)),
        }
    } else if tag == TAG_I64 || tag == TAG_F64 {
        match read_u64(data, p) {
            Some(x) => Ok((if tag == TAG_I64 { Property::I64(#[verifier::truncate] (x as i64)) } else { Property::F64(x) }, p + 8)),
            None => Err(Error::from_fault(p, Fault::Eof)),
        }
    } else if tag == TAG_BINARY || tag == TAG_STRING {
        let len = match read_u32(data, p) {
            Some(x) => x as usize,
            None => return Err(Error::from_fault(p, Fault::Eof)),
        };
        if data.len() - (p + 4) < len {
            return Err(Error::from_fault(p + 4, Fault::Eof));
        }
        let b = copy_range(data, p + 4, p + 4 + len);
        if tag == TAG_BINARY {
            Ok((Property::Binary(b), p + 4 + len))
        } else {
            match utf8_string(b) {
                Err(k) => Err(Error::utf8(p + 4, k)),
                Ok(st) => Ok((Property::String(st), p + 4 + len)),
            }
        }
    } else if tag == TAG_I32_ARRAY || tag == TAG_I64_ARRAY || tag == TAG_F32_ARRAY || tag == TAG_F64_ARRAY
        || tag == TAG_BOOL_ARRAY {
        decode_array(data, tag, p)
    } else {
        Err(Error::from_fault(pos, Fault::Unexpected))
    }
}

/// The bytes of `data` from `start` up to `end`.
pub fn copy_range(data: &Vec<u8>, start: usize, end: usize) -> (r: Vec<u8>)
    requires
        start <= end <= data@.len(),
    ensures
        r@ == data@.subrange(start as int, end as int),
{
    let mut r: Vec<u8> = Vec::new();
    let mut i: usize = start;
    while i < end
        invariant
            start <= i <= end <= data@.len(),
            r@ =~= data@.subrange(start as int, i as int),
        decreases end - i,
    {
        r.push(data[i]);
        i = i + 1;
    }
    r
}

/// Relies on `String::from_utf8`: it succeeds exactly on valid UTF-8, and the
/// string then holds the characters that the bytes encode; on failure,
/// `Utf8Error::valid_up_to` gives the length of the longest valid prefix,
/// which is shorter than the input.
#[verifier::external_body]
pub(crate) fn utf8_string(b: Vec<u8>) -> (r: Result<String, usize>)
    ensures
        r is Ok <==> valid_utf8(b@),
        r matches Ok(s) ==> s@ == decode_utf8(b@),
        r matches Err(k) ==> k < b@.len() && valid_utf8(b@.subrange(0, k as int)),
{
    String::from_utf8(b).map_err(|e| e.utf8_error().valid_up_to())
}

/// Decodes `n` consecutive properties starting at `pos`.
pub fn decode_properties(data: &Vec<u8>, pos: usize, n: u64) -> (r: Result<(Vec<Property>, usize), Error>)
    ensures
        decoded_as(r, parse_properties(data@, pos as int, n as nat), |t: Vec<Property>| t@.map_values(|p: Property| p@)),
        r matches Ok((_, e)) ==> e == pos || e <= data@.len(),
{
    let mut out: Vec<Property> = Vec::new();
    let mut cur: usize = pos;
    let mut i: u64 = 0;
    while i < n
        invariant
            i <= n,
            cur == pos || cur <= data@.len(),
            parse_properties(data@, pos as int, n as nat) == (match parse_properties(data@, cur as int, (n - i) as nat) {
                Err(e) => Err(e),
                Ok((vs, end)) => Ok((out@.map_values(|p: Property| p@) + vs, end)),
            }),
        decreases n - i,
    {
        let ghost before = out@.map_values(|p: Property| p@);
        match decode_property(data, cur) {
            Err(e) => {
                return Err(e);
            },
            Ok((v, next)) => {
                proof {
                    let rest = parse_properties(data@, next as int, (n - i - 1) as nat);
                    match rest {
                        Ok((vs, end)) => {
                            assert(before + (seq![v@] + vs) =~= before.push(v@) + vs);
                        },
                        Err(_) => {},
                    }
                }
                out.push(v);
                assert(out@.map_values(|p: Property| p@) =~= before.push(v@));
                cur = next;
                i = i + 1;
            },
        }
    }
    assert(out@.map_values(|p: Property| p@) + Seq::<PropertyValue>::empty() =~= out@.map_values(|p: Property| p@));
    Ok((out, cur))
}


fn push_i32s(out: &mut Vec<u8>, v: &Vec<i32>)
    ensures
        final(out)@ == old(out)@ + i32s_bytes(v@),
{
    let ghost start = out@;
    let mut i: usize = 0;
    while i < v.len()
        invariant
            i <= v@.len(),
            out@ =~= start + Seq::new(4 * i as nat, |j: int| bytes32(v@[j / 4] as u32)[j % 4]),
        decreases v@.len() - i,
    {
        push_u32(out, #[verifier::truncate] (v[i] as u32));
        proof {
            let f = |j: int| bytes32(v@[j / 4] as u32)[j % 4];
            assert forall|j: int| 4 * i <= j < 4 * i + 4 implies #[trigger] f(j) == bytes32(v@[i as int] as u32)[j - 4 * i] by {
                assert(j / 4 == i);
            }
            assert(Seq::new(4 * (i + 1) as nat, f) =~= Seq::new(4 * i as nat, f) + bytes32(v@[i as int] as u32));
        }
        i = i + 1;
    }
    assert(Seq::new(4 * v@.len(), |j: int| bytes32(v@[j / 4] as u32)[j % 4]) =~= i32s_bytes(v@));
}

fn push_i64s(out: &mut Vec<u8>, v: &Vec<i64>)
    ensures
        final(out)@ == old(out)@ + i64s_bytes(v@),
{
    let ghost start = out@;
    let mut i: usize = 0;
    while i < v.len()
        invariant
            i <= v@.len(),
            out@ =~= start + Seq::new(8 * i as nat, |j: int| bytes64(v@[j / 8] as u64)[j % 8]),
        decreases v@.len() - i,
    {
        push_u64(out, #[verifier::truncate] (v[i] as u64));
        proof {
            let f = |j: int| bytes64(v@[j / 8] as u64)[j % 8];
            assert forall|j: int| 8 * i <= j < 8 * i + 8 implies #[trigger] f(j) == bytes64(v@[i as int] as u64)[j - 8 * i] by {
                assert(j / 8 == i);
            }
            assert(Seq::new(8 * (i + 1) as nat, f) =~= Seq::new(8 * i as nat, f) + bytes64(v@[i as int] as u64));
        }
        i = i + 1;
    }
    assert(Seq::new(8 * v@.len(), |j: int| bytes64(v@[j / 8] as u64)[j % 8]) =~= i64s_bytes(v@));
}

fn push_u32s(out: &mut Vec<u8>, v: &Vec<u32>)
    ensures
        final(out)@ == old(out)@ + u32s_bytes(v@),
{
    let ghost start = out@;
    let mut i: usize = 0;
    while i < v.len()
        invariant
            i <= v@.len(),
            out@ =~= start + Seq::new(4 * i as nat, |j: int| bytes32(v@[j / 4])[j % 4]),
        decreases v@.len() - i,
    {
        push_u32(out, v[i]);
        proof {
            let f = |j: int| bytes32(v@[j / 4])[j % 4];
            assert forall|j: int| 4 * i <= j < 4 * i + 4 implies #[trigger] f(j) == bytes32(v@[i as int])[j - 4 * i] by {
                assert(j / 4 == i);
            }
            assert(Seq::new(4 * (i + 1) as nat, f) =~= Seq::new(4 * i as nat, f) + bytes32(v@[i as int]));
        }
        i = i + 1;
    }
    assert(Seq::new(4 * v@.len(), |j: int| bytes32(v@[j / 4])[j % 4]) =~= u32s_bytes(v@));
}

fn push_u64s(out: &mut Vec<u8>, v: &Vec<u64>)
    ensures
        final(out)@ == old(out)@ + u64s_bytes(v@),
{
    let ghost start = out@;
    let mut i: usize = 0;
    while i < v.len()
        invariant
            i <= v@.len(),
            out@ =~= start + Seq::new(8 * i as nat, |j: int| bytes64(v@[j / 8])[j % 8]),
        decreases v@.len() - i,
    {
        push_u64(out, v[i]);
        proof {
            let f = |j: int| bytes64(v@[j / 8])[j % 8];
            assert forall|j: int| 8 * i <= j < 8 * i + 8 implies #[trigger] f(j) == bytes64(v@[i as int])[j - 8 * i] by {
                assert(j / 8 == i);
            }
            assert(Seq::new(8 * (i + 1) as nat, f) =~= Seq::new(8 * i as nat, f) + bytes64(v@[i as int]));
        }
        i = i + 1;
    }
    assert(Seq::new(8 * v@.len(), |j: int| bytes64(v@[j / 8])[j % 8]) =~= u64s_bytes(v@));
}

fn push_bools(out: &mut Vec<u8>, v: &Vec<bool>)
    ensures
        final(out)@ == old(out)@ + bools_bytes(v@),
{
    let ghost start = out@;
    let mut i: usize = 0;
    while i < v.len()
        invariant
            i <= v@.len(),
            out@ =~= start + bools_bytes(v@.subrange(0, i as int)),
        decreases v@.len() - i,
    {
        out.push(if v[i] { 1u8 } else { 0u8 });
        assert(bools_bytes(v@.subrange(0, i + 1)) =~= bools_bytes(v@.subrange(0, i as int)).push(
            if v@[i as int] { 1u8 } else { 0u8 }));
        i = i + 1;
    }
    assert(v@.subrange(0, v@.len() as int) =~= v@);
}

/// The length in bytes of an array's raw payload, if it fits a 32-bit field.
fn array_payload_len(n: usize, w: usize) -> (r: Option<u32>)
    requires
        w == 1 || w == 4 || w == 8,
    ensures
        r matches Some(x) ==> x == w * n,
        r is None <==> w * n > u32::MAX,
{
    if n as u64 > 0xffff_ffffu64 / (w as u64) {
        assert(w * n > u32::MAX) by (nonlinear_arith)
            requires n > 0xffff_ffffu64 / (w as u64), w >= 1;
        None
    } else {
        assert(w * n <= u32::MAX) by (nonlinear_arith)
            requires n <= 0xffff_ffffu64 / (w as u64), w >= 1;
        Some((w * n) as u32)
    }
}

/// Whether every length in the value fits its 32-bit field.
pub fn is_encodable(p: &Property) -> (r: bool)
    ensures
        r == encodable(p@),
{
    match p {
        Property::Binary(b) => b.len() as u64 <= 0xffff_ffffu64,
        Property::String(st) => st.as_str().as_bytes().len() as u64 <= 0xffff_ffffu64,
        Property::VecI32(a) => array_payload_len(a.len(), 4).is_some(),
        Property::VecI64(a) => array_payload_len(a.len(), 8).is_some(),
        Property::VecF32(a) => array_payload_len(a.len(), 4).is_some(),
        Property::VecF64(a) => array_payload_len(a.len(), 8).is_some(),
        Property::VecBool(a) => array_payload_len(a.len(), 1).is_some(),
        _ => true,
    }
}

fn push_array_header(out: &mut Vec<u8>, tag: u8, n: usize, len: u32)
    requires
        n <= u32::MAX,
    ensures
        final(out)@ == old(out)@ + seq![tag] + bytes32(n as u32) + bytes32(0u32) + bytes32(len),
{
    out.push(tag);
    push_u32(out, n as u32);
    push_u32(out, 0);
    push_u32(out, len);
}

/// Appends the bytes of one property.
pub fn encode_property(out: &mut Vec<u8>, p: &Property)
    requires
        encodable(p@),
    ensures
        final(out)@ == old(out)@ + property_bytes(p@),
{
    let ghost start = out@;
    match p {
        Property::Bool(b) => {
            out.push(TAG_BOOL);
            out.push(if *b { 1u8 } else { 0u8 });
        },
        Property::I16(x) => {
            out.push(TAG_I16);
            push_u16(out, #[verifier::truncate] (*x as u16));
        },
        Property::I32(x) => {
            out.push(TAG_I32);
            push_u32(out, #[verifier::truncate] (*x as u32));
        },
        Property::I64(x) => {
            out.push(TAG_I64);
            push_u64(out, #[verifier::truncate] (*x as u64));
        },
        Property::F32(x) => {
            out.push(TAG_F32);
            push_u32(out, *x);
        },
        Property::F64(x) => {
            out.push(TAG_F64);
            push_u64(out, *x);
        },
        Property::Binary(b) => {
            out.push(TAG_BINARY);
            push_u32(out, b.len() as u32);
            push_all(out, b);
        },
        Property::String(st) => {
            let bytes = st.as_str().as_bytes();
            out.push(TAG_STRING);
            push_u32(out, bytes.len() as u32);
            push_slice(out, bytes);
        },
        Property::VecI32(a) => {
            push_array_header(out, TAG_I32_ARRAY, a.len(), (4 * a.len()) as u32);
            push_i32s(out, a);
        },
        Property::VecI64(a) => {
            push_array_header(out, TAG_I64_ARRAY, a.len(), (8 * a.len()) as u32);
            push_i64s(out, a);
        },
        Property::VecF32(a) => {
            push_array_header(out, TAG_F32_ARRAY, a.len(), (4 * a.len()) as u32);
            push_u32s(out, a);
        },
        Property::VecF64(a) => {
            push_array_header(out, TAG_F64_ARRAY, a.len(), (8 * a.len()) as u32);
            push_u64s(out, a);
        },
        Property::VecBool(a) => {
            push_array_header(out, TAG_BOOL_ARRAY, a.len(), a.len() as u32);
            push_bools(out, a);
        },
    }
    assert(out@ =~= start + property_bytes(p@));
}

/// Appends the bytes of a property list, in order.
pub fn encode_properties(out: &mut Vec<u8>, ps: &Vec<Property>)
    requires
        forall|i: int| 0 <= i < ps@.len() ==> encodable(#[trigger] ps@[i]@),
    ensures
        final(out)@ == old(out)@ + properties_bytes(ps@.map_values(|p: Property| p@)),
{
    let ghost start = out@;
    let ghost vs = ps@.map_values(|p: Property| p@);
    assert(vs.subrange(0, vs.len() as int) =~= vs);
    let mut i: usize = 0;
    while i < ps.len()
        invariant
            i <= ps@.len(),
            vs == ps@.map_values(|p: Property| p@),
            forall|k: int| 0 <= k < ps@.len() ==> encodable(#[trigger] ps@[k]@),
            start + properties_bytes(vs) == out@ + properties_bytes(vs.subrange(i as int, vs.len() as int)),
        decreases ps@.len() - i,
    {
        proof {
            let rest = vs.subrange(i as int, vs.len() as int);
            assert(rest.drop_first() =~= vs.subrange(i + 1, vs.len() as int));
            assert(rest[0] == ps@[i as int]@);
        }
        encode_property(out, &ps[i]);
        i = i + 1;
    }
    assert(vs.subrange(i as int, vs.len() as int) =~= Seq::<PropertyValue>::empty());
    assert(properties_bytes(Seq::<PropertyValue>::empty()) =~= Seq::<u8>::empty());
}

fn push_all(out: &mut Vec<u8>, b: &Vec<u8>)
    ensures
        final(out)@ == old(out)@ + b@,
{
    push_slice(out, b.as_slice());
}

pub(crate) fn push_slice(out: &mut Vec<u8>, b: &[u8])
    ensures
        final(out)@ == old(out)@ + b@,
{
    let ghost start = out@;
    let mut i: usize = 0;
    while i < b.len()
        invariant
            i <= b@.len(),
            out@ =~= start + b@.subrange(0, i as int),
        decreases b@.len() - i,
    {
        out.push(b[i]);
        i = i + 1;
    }
}

} // verus!
