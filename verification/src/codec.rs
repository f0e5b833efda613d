//! The structural codec: encoding a record instance to bytes and decoding
//! bytes back, driven by the record type shape.
//!
//! Scalars are laid out big-endian with a fixed width. A text field is its
//! UTF-8 content followed by a single zero byte; decoding a text field stops
//! at the terminator, or softly at the end of the input, and interprets the
//! collected bytes permissively (invalid sequences are replaced). A nested
//! record is encoded by the same rules applied to its own shape, in order.

use vstd::prelude::*;
use vstd::utf8::{
    char_is_scalar, char_u32_cast, decode_utf8, encode_scalar, encode_utf8,
    encode_utf8_decode_utf8, encode_utf8_valid_utf8, has_width_1_encoding, has_width_2_encoding,
    has_width_3_encoding, is_scalar, valid_utf8,
};

use crate::record::FieldDescriptor;
use crate::record::FieldModel;
use crate::record::FieldType;
use crate::record::TyModel;
use crate::record::ValModel;
use crate::record::Value;
use crate::record::fields_match;
use crate::record::fields_model;
use crate::record::lemma_fields_match_iff;
use crate::record::lemma_fields_model_index;
use crate::record::lemma_fields_model_len;
use crate::record::lemma_vals_model_index;
use crate::record::lemma_vals_model_len;
use crate::record::lemma_vals_model_push;
use crate::record::no_nul_val;
use crate::record::no_nul_vals;
use crate::record::ty_matches;
use crate::record::vals_model;
use crate::ConfigError;
use vstd::string::StrSliceExecFns;

verus! {

/// The two big-endian bytes of a 16-bit value.
pub open spec fn be16(x: u16) -> Seq<u8> {
    seq![((x >> 8) & 0xff) as u8, (x & 0xff) as u8]
}

/// The four big-endian bytes of a 32-bit value.
pub open spec fn be32(x: u32) -> Seq<u8> {
    seq![
        ((x >> 24) & 0xff) as u8,
        ((x >> 16) & 0xff) as u8,
        ((x >> 8) & 0xff) as u8,
        (x & 0xff) as u8,
    ]
}

/// The eight big-endian bytes of a 64-bit value.
pub open spec fn be64(x: u64) -> Seq<u8> {
    seq![
        ((x >> 56) & 0xff) as u8,
        ((x >> 48) & 0xff) as u8,
        ((x >> 40) & 0xff) as u8,
        ((x >> 32) & 0xff) as u8,
        ((x >> 24) & 0xff) as u8,
        ((x >> 16) & 0xff) as u8,
        ((x >> 8) & 0xff) as u8,
        (x & 0xff) as u8,
    ]
}

/// The 16-bit value read big-endian from the first two bytes.
pub open spec fn be16_val(s: Seq<u8>) -> u16
    recommends
        s.len() >= 2,
{
    ((s[0] as u16) << 8) | (s[1] as u16)
}

/// The 32-bit value read big-endian from the first four bytes.
pub open spec fn be32_val(s: Seq<u8>) -> u32
    recommends
        s.len() >= 4,
{
    ((s[0] as u32) << 24) | ((s[1] as u32) << 16) | ((s[2] as u32) << 8) | (s[3] as u32)
}

/// The 64-bit value read big-endian from the first eight bytes.
pub open spec fn be64_val(s: Seq<u8>) -> u64
    recommends
        s.len() >= 8,
{
    ((s[0] as u64) << 56) | ((s[1] as u64) << 48) | ((s[2] as u64) << 40) | ((s[3] as u64) << 32)
        | ((s[4] as u64) << 24) | ((s[5] as u64) << 16) | ((s[6] as u64) << 8) | (s[7] as u64)
}

/// What `String::from_utf8_lossy` yields on bytes that are not valid UTF-8.
pub uninterp spec fn lossy_utf8(bytes: Seq<u8>) -> Seq<char>;

/// The permissive text reading: valid UTF-8 decodes exactly; anything else
/// goes through the lossy replacement.
pub open spec fn lossy_decode(bytes: Seq<u8>) -> Seq<char> {
    if valid_utf8(bytes) {
        decode_utf8(bytes)
    } else {
        lossy_utf8(bytes)
    }
}

/// Relies on alloc's `String::from_utf8_lossy`: bytes that are valid UTF-8
/// come back as exactly the string they encode, and invalid sequences are
/// replaced, which `lossy_utf8` names.
#[verifier::external_body]
fn from_utf8_lossy(bytes: &Vec<u8>) -> (r: String)
    ensures
        r@ == lossy_decode(bytes@),
        !valid_utf8(bytes@) ==> r@ == lossy_utf8(bytes@),
{
    String::from_utf8_lossy(bytes).into_owned()
}

/// The number of bytes before the first zero byte, or the whole length when
/// there is none.
pub open spec fn scan_terminator(s: Seq<u8>) -> int
    decreases s.len(),
{
    if s.len() == 0 {
        0
    } else if s[0] == 0 {
        0
    } else {
        1 + scan_terminator(s.drop_first())
    }
}

/// The encoding of one field value of the given type.
pub open spec fn enc_val(t: TyModel, v: ValModel) -> Seq<u8>
    decreases v,
{
    match (t, v) {
        (TyModel::U8, ValModel::U8(x)) => seq![x],
        (TyModel::U16, ValModel::U16(x)) => be16(x),
        (TyModel::U32, ValModel::U32(x)) => be32(x),
        (TyModel::U64, ValModel::U64(x)) => be64(x),
        (TyModel::I8, ValModel::I8(x)) => seq![x as u8],
        (TyModel::I16, ValModel::I16(x)) => be16(x as u16),
        (TyModel::I32, ValModel::I32(x)) => be32(x as u32),
        (TyModel::I64, ValModel::I64(x)) => be64(x as u64),
        (TyModel::Bool, ValModel::Bool(b)) => seq![if b { 1u8 } else { 0u8 }],
        (TyModel::Text, ValModel::Text(s)) => encode_utf8(s) + seq![0u8],
        (TyModel::Rec(fs), ValModel::Rec(vs)) => enc_fields(fs, vs),
        _ => Seq::empty(),
    }
}

/// The encoding of a record instance: each field in declaration order, with
/// the outputs concatenated.
pub open spec fn enc_fields(fs: Seq<FieldModel>, vs: Seq<ValModel>) -> Seq<u8>
    decreases vs,
{
    if vs.len() == 0 || fs.len() == 0 {
        Seq::empty()
    } else {
        enc_val(fs[0].ty, vs[0]) + enc_fields(fs.drop_first(), vs.drop_first())
    }
}

/// Decoding one field value of the given type from the front of the input:
/// the value and the number of bytes consumed, or nothing when a fixed-width
/// read runs out of input.
pub open spec fn dec_val(t: TyModel, s: Seq<u8>) -> Option<(ValModel, int)>
    decreases t,
{
    match t {
        TyModel::U8 => if s.len() < 1 {
            None
        } else {
            Some((ValModel::U8(s[0]), 1))
        },
        TyModel::U16 => if s.len() < 2 {
            None
        } else {
            Some((ValModel::U16(be16_val(s)), 2))
        },
        TyModel::U32 => if s.len() < 4 {
            None
        } else {
            Some((ValModel::U32(be32_val(s)), 4))
        },
        TyModel::U64 => if s.len() < 8 {
            None
        } else {
            Some((ValModel::U64(be64_val(s)), 8))
        },
        TyModel::I8 => if s.len() < 1 {
            None
        } else {
            Some((ValModel::I8(s[0] as i8), 1))
        },
        TyModel::I16 => if s.len() < 2 {
            None
        } else {
            Some((ValModel::I16(be16_val(s) as i16), 2))
        },
        TyModel::I32 => if s.len() < 4 {
            None
        } else {
            Some((ValModel::I32(be32_val(s) as i32), 4))
        },
        TyModel::I64 => if s.len() < 8 {
            None
        } else {
            Some((ValModel::I64(be64_val(s) as i64), 8))
        },
        TyModel::Bool => if s.len() < 1 {
            None
        } else {
            Some((ValModel::Bool(s[0] != 0), 1))
        },
        TyModel::Text => {
            let n = scan_terminator(s);
            let consumed = if n < s.len() {
                n + 1
            } else {
                n
            };
            Some((ValModel::Text(lossy_decode(s.take(n))), consumed))
        },
        TyModel::Rec(fs) => match dec_fields(fs, s) {
            Some((vs, n)) => Some((ValModel::Rec(vs), n)),
            None => None,
        },
    }
}

/// Decoding a record instance from the front of the input: each field in
/// declaration order, advancing over the bytes the field consumed.
pub open spec fn dec_fields(fs: Seq<FieldModel>, s: Seq<u8>) -> Option<(Seq<ValModel>, int)>
    decreases fs,
{
    if fs.len() == 0 {
        Some((Seq::empty(), 0))
    } else {
        match dec_val(fs[0].ty, s) {
            None => None,
            Some((v, n)) => match dec_fields(fs.drop_first(), s.skip(n)) {
                None => None,
                Some((vs, m)) => Some((seq![v] + vs, n + m)),
            },
        }
    }
}

fn push_be16(out: &mut Vec<u8>, x: u16)
    ensures
        final(out)@ == old(out)@ + be16(x),
{
    proof {
        assert((x >> 8) & 0xff < 256 && x & 0xff < 256) by (bit_vector);
    }
    out.push(((x >> 8) & 0xff) as u8);
    out.push((x & 0xff) as u8);
    proof {
        assert(out@ =~= old(out)@ + be16(x));
    }
}

fn push_be32(out: &mut Vec<u8>, x: u32)
    ensures
        final(out)@ == old(out)@ + be32(x),
{
    proof {
        assert((x >> 24) & 0xff < 256 && (x >> 16) & 0xff < 256 && (x >> 8) & 0xff < 256 && x
            & 0xff < 256) by (bit_vector);
    }
    out.push(((x >> 24) & 0xff) as u8);
    out.push(((x >> 16) & 0xff) as u8);
    out.push(((x >> 8) & 0xff) as u8);
    out.push((x & 0xff) as u8);
    proof {
        assert(out@ =~= old(out)@ + be32(x));
    }
}

fn push_be64(out: &mut Vec<u8>, x: u64)
    ensures
        final(out)@ == old(out)@ + be64(x),
{
    proof {
        assert((x >> 56) & 0xff < 256 && (x >> 48) & 0xff < 256 && (x >> 40) & 0xff < 256 && (x
            >> 32) & 0xff < 256 && (x >> 24) & 0xff < 256 && (x >> 16) & 0xff < 256 && (x >> 8)
            & 0xff < 256 && x & 0xff < 256) by (bit_vector);
    }
    out.push(((x >> 56) & 0xff) as u8);
    out.push(((x >> 48) & 0xff) as u8);
    out.push(((x >> 40) & 0xff) as u8);
    out.push(((x >> 32) & 0xff) as u8);
    out.push(((x >> 24) & 0xff) as u8);
    out.push(((x >> 16) & 0xff) as u8);
    out.push(((x >> 8) & 0xff) as u8);
    out.push((x & 0xff) as u8);
    proof {
        assert(out@ =~= old(out)@ + be64(x));
    }
}

fn read_be16(bytes: &Vec<u8>, pos: usize) -> (x: u16)
    requires
        pos + 2 <= bytes@.len(),
    ensures
        x == be16_val(bytes@.skip(pos as int)),
{
    let n = bytes.len();
    proof { assert(n == bytes@.len()); }
    let b0 = bytes[pos];
    let b1 = bytes[pos + 1];
    proof {
        let s = bytes@.skip(pos as int);
        assert(s[0] == bytes@[pos as int]);
        assert(s[1] == bytes@[pos as int + 1]);
    }
    ((b0 as u16) << 8) | (b1 as u16)
}

fn read_be32(bytes: &Vec<u8>, pos: usize) -> (x: u32)
    requires
        pos + 4 <= bytes@.len(),
    ensures
        x == be32_val(bytes@.skip(pos as int)),
{
    let n = bytes.len();
    proof { assert(n == bytes@.len()); }
    let b0 = bytes[pos];
    let b1 = bytes[pos + 1];
    let b2 = bytes[pos + 2];
    let b3 = bytes[pos + 3];
    proof {
        let s = bytes@.skip(pos as int);
        assert(s[0] == bytes@[pos as int]);
        assert(s[1] == bytes@[pos as int + 1]);
        assert(s[2] == bytes@[pos as int + 2]);
        assert(s[3] == bytes@[pos as int + 3]);
    }
    ((b0 as u32) << 24) | ((b1 as u32) << 16) | ((b2 as u32) << 8) | (b3 as u32)
}

fn read_be64(bytes: &Vec<u8>, pos: usize) -> (x: u64)
    requires
        pos + 8 <= bytes@.len(),
    ensures
        x == be64_val(bytes@.skip(pos as int)),
{
    let n = bytes.len();
    proof { assert(n == bytes@.len()); }
    let b0 = bytes[pos];
    let b1 = bytes[pos + 1];
    let b2 = bytes[pos + 2];
    let b3 = bytes[pos + 3];
    let b4 = bytes[pos + 4];
    let b5 = bytes[pos + 5];
    let b6 = bytes[pos + 6];
    let b7 = bytes[pos + 7];
    proof {
        let s = bytes@.skip(pos as int);
        assert(s[0] == bytes@[pos as int]);
        assert(s[1] == bytes@[pos as int + 1]);
        assert(s[2] == bytes@[pos as int + 2]);
        assert(s[3] == bytes@[pos as int + 3]);
        assert(s[4] == bytes@[pos as int + 4]);
        assert(s[5] == bytes@[pos as int + 5]);
        assert(s[6] == bytes@[pos as int + 6]);
        assert(s[7] == bytes@[pos as int + 7]);
    }
    ((b0 as u64) << 56) | ((b1 as u64) << 48) | ((b2 as u64) << 40) | ((b3 as u64) << 32) | ((b4
        as u64) << 24) | ((b5 as u64) << 16) | ((b6 as u64) << 8) | (b7 as u64)
}

/// One more encoded field extends the encoding of the fields before it.
pub proof fn lemma_enc_fields_step(fs: Seq<FieldModel>, vs: Seq<ValModel>, i: int)
    requires
        0 <= i < vs.len(),
        i < fs.len(),
    ensures
        enc_fields(fs.take(i + 1), vs.take(i + 1)) == enc_fields(fs.take(i), vs.take(i)) + enc_val(
            fs[i].ty,
            vs[i],
        ),
    decreases i,
{
    reveal_with_fuel(enc_fields, 2);
    if i == 0 {
        assert(fs.take(1)[0] == fs[0]);
        assert(vs.take(1)[0] == vs[0]);
        assert(fs.take(1).drop_first() =~= Seq::<FieldModel>::empty());
        assert(vs.take(1).drop_first() =~= Seq::<ValModel>::empty());
        assert(fs.take(0) =~= Seq::<FieldModel>::empty());
        assert(vs.take(0) =~= Seq::<ValModel>::empty());
        assert(enc_fields(fs.take(1), vs.take(1)) =~= enc_fields(fs.take(0), vs.take(0)) + enc_val(
            fs[0].ty,
            vs[0],
        ));
    } else {
        lemma_enc_fields_step(fs.drop_first(), vs.drop_first(), i - 1);
        assert(fs.take(i + 1)[0] == fs[0]);
        assert(vs.take(i + 1)[0] == vs[0]);
        assert(fs.take(i)[0] == fs[0]);
        assert(vs.take(i)[0] == vs[0]);
        assert(fs.take(i + 1).drop_first() =~= fs.drop_first().take(i));
        assert(vs.take(i + 1).drop_first() =~= vs.drop_first().take(i));
        assert(fs.take(i).drop_first() =~= fs.drop_first().take(i - 1));
        assert(vs.take(i).drop_first() =~= vs.drop_first().take(i - 1));
        assert(fs.drop_first()[i - 1] == fs[i]);
        assert(vs.drop_first()[i - 1] == vs[i]);
        assert(enc_fields(fs.take(i + 1), vs.take(i + 1)) =~= enc_fields(fs.take(i), vs.take(i))
            + enc_val(fs[i].ty, vs[i]));
    }
}

fn encode_text(s: &String, out: &mut Vec<u8>)
    ensures
        final(out)@ == old(out)@ + encode_utf8(s@) + seq![0u8],
{
    let bs = s.as_str().as_bytes_vec();
    let m = bs.len();
    let mut j: usize = 0;
    while j < m
        invariant
            m == bs.len(),
            0 <= j <= m,
            bs@ == encode_utf8(s@),
            out@ == old(out)@ + bs@.take(j as int),
        decreases m - j,
    {
        out.push(bs[j]);
        proof {
            assert(out@ =~= old(out)@ + bs@.take(j as int + 1));
        }
        j += 1;
    }
    out.push(0u8);
    proof {
        assert(bs@.take(m as int) =~= bs@);
        assert(out@ =~= old(out)@ + encode_utf8(s@) + seq![0u8]);
    }
}

/// Appends the encoding of one field value of the given type.
pub fn encode_value(t: &FieldType, v: &Value, out: &mut Vec<u8>)
    requires
        ty_matches(t.model(), v.model()),
    ensures
        final(out)@ == old(out)@ + enc_val(t.model(), v.model()),
    decreases v,
{
    match (t, v) {
        (FieldType::U8, Value::U8(x)) => {
            out.push(*x);
            proof {
                assert(out@ =~= old(out)@ + enc_val(t.model(), v.model()));
            }
        },
        (FieldType::U16, Value::U16(x)) => {
            push_be16(out, *x);
        },
        (FieldType::U32, Value::U32(x)) => {
            push_be32(out, *x);
        },
        (FieldType::U64, Value::U64(x)) => {
            push_be64(out, *x);
        },
        (FieldType::I8, Value::I8(x)) => {
            out.push(#[verifier::truncate] (*x as u8));
            proof {
                assert(out@ =~= old(out)@ + enc_val(t.model(), v.model()));
            }
        },
        (FieldType::I16, Value::I16(x)) => {
            push_be16(out, #[verifier::truncate] (*x as u16));
        },
        (FieldType::I32, Value::I32(x)) => {
            push_be32(out, #[verifier::truncate] (*x as u32));
        },
        (FieldType::I64, Value::I64(x)) => {
            push_be64(out, #[verifier::truncate] (*x as u64));
        },
        (FieldType::Bool, Value::Bool(b)) => {
            out.push(if *b { 1u8 } else { 0u8 });
            proof {
                assert(out@ =~= old(out)@ + enc_val(t.model(), v.model()));
            }
        },
        (FieldType::Text, Value::Text(s)) => {
            encode_text(s, out);
            proof {
                assert(out@ =~= old(out)@ + enc_val(t.model(), v.model()));
            }
        },
        (FieldType::Record(fs), Value::Record(vs)) => {
            encode_fields_into(fs, vs, out);
        },
        _ => {
            proof {
                assert(false);
            }
        },
    }
}

/// Appends the encodings of the fields of one record instance, in
/// declaration order.
pub fn encode_fields_into(fs: &Vec<FieldDescriptor>, vs: &Vec<Value>, out: &mut Vec<u8>)
    requires
        fields_match(fields_model(fs@), vals_model(vs@)),
    ensures
        final(out)@ == old(out)@ + enc_fields(fields_model(fs@), vals_model(vs@)),
    decreases vs,
{
    let n = vs.len();
    let mut i: usize = 0;
    while i < n
        invariant
            n == vs@.len(),
            0 <= i <= n,
            fields_match(fields_model(fs@), vals_model(vs@)),
            out@ == old(out)@ + enc_fields(
                fields_model(fs@).take(i as int),
                vals_model(vs@).take(i as int),
            ),
        decreases n - i,
    {
        proof {
            lemma_fields_model_len(fs@);
            lemma_vals_model_len(vs@);
            lemma_fields_model_index(fs@, i as int);
            lemma_vals_model_index(vs@, i as int);
            lemma_fields_match_iff(fields_model(fs@), vals_model(vs@));
            assert(ty_matches(fields_model(fs@)[i as int].ty, vals_model(vs@)[i as int]));
            assert(fields_model(fs@)[i as int].ty == fs@[i as int].ty.model());
        }
        encode_value(&fs[i].ty, &vs[i], out);
        proof {
            lemma_enc_fields_step(fields_model(fs@), vals_model(vs@), i as int);
        }
        i += 1;
    }
    proof {
        lemma_fields_model_len(fs@);
        lemma_vals_model_len(vs@);
        assert(fields_model(fs@).take(n as int) =~= fields_model(fs@));
        assert(vals_model(vs@).take(n as int) =~= vals_model(vs@));
    }
}

/// Encodes a record instance against its shape into a fresh buffer: each
/// field in declaration order, scalars big-endian, text zero-terminated.
pub fn encode_record(fs: &Vec<FieldDescriptor>, vs: &Vec<Value>) -> (out: Vec<u8>)
    requires
        fields_match(fields_model(fs@), vals_model(vs@)),
    ensures
        out@ == enc_fields(fields_model(fs@), vals_model(vs@)),
{
    let mut out: Vec<u8> = Vec::new();
    encode_fields_into(fs, vs, &mut out);
    proof {
        assert(out@ =~= enc_fields(fields_model(fs@), vals_model(vs@)));
    }
    out
}

/// The scan stops exactly at the first zero byte, or at the end of the input
/// when there is none.
pub proof fn lemma_scan_first_zero(s: Seq<u8>, n: int)
    requires
        0 <= n <= s.len(),
        forall|k: int| 0 <= k < n ==> s[k] != 0,
        n < s.len() ==> s[n] == 0,
    ensures
        scan_terminator(s) == n,
    decreases n,
{
    if n > 0 {
        assert(s[0] != 0);
        assert forall|k: int| 0 <= k < n - 1 implies s.drop_first()[k] != 0 by {
            assert(s.drop_first()[k] == s[k + 1]);
        }
        if n - 1 < s.drop_first().len() {
            assert(s.drop_first()[n - 1] == s[n]);
        }
        lemma_scan_first_zero(s.drop_first(), n - 1);
    }
}

fn decode_text(bytes: &Vec<u8>, pos: usize) -> (r: (String, usize))
    requires
        pos <= bytes@.len(),
    ensures
        ({
            let src = bytes@.skip(pos as int);
            let n = scan_terminator(src);
            &&& pos <= r.1 <= bytes@.len()
            &&& r.0@ == lossy_decode(src.take(n))
            &&& r.1 - pos == (if n < src.len() {
                n + 1
            } else {
                n
            })
        }),
{
    let len = bytes.len();
    let mut j: usize = pos;
    while j < len && bytes[j] != 0
        invariant
            pos <= j <= len,
            len == bytes@.len(),
            forall|k: int| pos <= k < j ==> bytes@[k] != 0,
        decreases len - j,
    {
        j += 1;
    }
    proof {
        let src = bytes@.skip(pos as int);
        assert forall|k: int| 0 <= k < j - pos implies src[k] != 0 by {
            assert(src[k] == bytes@[pos + k]);
        }
        if j < len {
            assert(src[j - pos] == bytes@[j as int]);
        }
        lemma_scan_first_zero(src, j - pos);
    }
    let mut buf: Vec<u8> = Vec::new();
    let mut i: usize = pos;
    while i < j
        invariant
            pos <= i <= j <= len,
            len == bytes@.len(),
            buf@ == bytes@.subrange(pos as int, i as int),
        decreases j - i,
    {
        let b = bytes[i];
        buf.push(b);
        proof {
            assert(buf@ =~= bytes@.subrange(pos as int, i as int + 1));
        }
        i += 1;
    }
    let s = from_utf8_lossy(&buf);
    proof {
        let src = bytes@.skip(pos as int);
        assert(src.take(j - pos) =~= bytes@.subrange(pos as int, j as int));
    }
    if j < len {
        (s, j + 1)
    } else {
        (s, j)
    }
}

/// Decodes one field value of the given type, starting at the given
/// position in the buffer; on success the position after the field comes
/// back with the value.
pub fn decode_value(t: &FieldType, bytes: &Vec<u8>, pos: usize) -> (r: Result<
    (Value, usize),
    ConfigError,
>)
    requires
        pos <= bytes@.len(),
    ensures
        match r {
            Ok(p) => {
                &&& pos <= p.1 <= bytes@.len()
                &&& dec_val(t.model(), bytes@.skip(pos as int)) == Some(
                    (p.0.model(), p.1 - pos as int),
                )
                &&& ty_matches(t.model(), p.0.model())
            },
            Err(e) => {
                &&& e == ConfigError::TruncatedInput
                &&& dec_val(t.model(), bytes@.skip(pos as int)) is None
            },
        },
    decreases t,
{
    let len = bytes.len();
    match t {
        FieldType::U8 => {
            if pos < len {
                let x = bytes[pos];
                proof {
                    assert(bytes@.skip(pos as int)[0] == bytes@[pos as int]);
                }
                Ok((Value::U8(x), pos + 1))
            } else {
                Err(ConfigError::TruncatedInput)
            }
        },
        FieldType::U16 => {
            if len - pos >= 2 {
                let x = read_be16(bytes, pos);
                Ok((Value::U16(x), pos + 2))
            } else {
                Err(ConfigError::TruncatedInput)
            }
        },
        FieldType::U32 => {
            if len - pos >= 4 {
                let x = read_be32(bytes, pos);
                Ok((Value::U32(x), pos + 4))
            } else {
                Err(ConfigError::TruncatedInput)
            }
        },
        FieldType::U64 => {
            if len - pos >= 8 {
                let x = read_be64(bytes, pos);
                Ok((Value::U64(x), pos + 8))
            } else {
                Err(ConfigError::TruncatedInput)
            }
        },
        FieldType::I8 => {
            if pos < len {
                let x = bytes[pos];
                proof {
                    assert(bytes@.skip(pos as int)[0] == bytes@[pos as int]);
                }
                Ok((Value::I8(#[verifier::truncate] (x as i8)), pos + 1))
            } else {
                Err(ConfigError::TruncatedInput)
            }
        },
        FieldType::I16 => {
            if len - pos >= 2 {
                let x = read_be16(bytes, pos);
                Ok((Value::I16(#[verifier::truncate] (x as i16)), pos + 2))
            } else {
                Err(ConfigError::TruncatedInput)
            }
        },
        FieldType::I32 => {
            if len - pos >= 4 {
                let x = read_be32(bytes, pos);
                Ok((Value::I32(#[verifier::truncate] (x as i32)), pos + 4))
            } else {
                Err(ConfigError::TruncatedInput)
            }
        },
        FieldType::I64 => {
            if len - pos >= 8 {
                let x = read_be64(bytes, pos);
                Ok((Value::I64(#[verifier::truncate] (x as i64)), pos + 8))
            } else {
                Err(ConfigError::TruncatedInput)
            }
        },
        FieldType::Bool => {
            if pos < len {
                let x = bytes[pos];
                proof {
                    assert(bytes@.skip(pos as int)[0] == bytes@[pos as int]);
                }
                Ok((Value::Bool(x != 0), pos + 1))
            } else {
                Err(ConfigError::TruncatedInput)
            }
        },
        FieldType::Text => {
            let (s, end) = decode_text(bytes, pos);
            Ok((Value::Text(s), end))
        },
        FieldType::Record(fs) => {
            match decode_fields(fs, bytes, pos) {
                Ok((vs, end)) => Ok((Value::Record(vs), end)),
                Err(e) => Err(e),
            }
        },
    }
}

/// Decodes the fields of one record instance in declaration order, starting
/// at the given position in the buffer.
pub fn decode_fields(fs: &Vec<FieldDescriptor>, bytes: &Vec<u8>, pos: usize) -> (r: Result<
    (Vec<Value>, usize),
    ConfigError,
>)
    requires
        pos <= bytes@.len(),
    ensures
        match r {
            Ok(p) => {
                &&& pos <= p.1 <= bytes@.len()
                &&& dec_fields(fields_model(fs@), bytes@.skip(pos as int)) == Some(
                    (vals_model(p.0@), p.1 - pos as int),
                )
                &&& fields_match(fields_model(fs@), vals_model(p.0@))
            },
            Err(e) => {
                &&& e == ConfigError::TruncatedInput
                &&& dec_fields(fields_model(fs@), bytes@.skip(pos as int)) is None
            },
        },
    decreases fs,
{
    let n = fs.len();
    proof {
        lemma_fields_model_len(fs@);
    }
    let mut acc: Vec<Value> = Vec::new();
    let mut p: usize = pos;
    let mut i: usize = 0;
    proof {
        assert(fields_model(fs@).skip(0) =~= fields_model(fs@));
        assert(fields_model(fs@).take(0) =~= Seq::<FieldModel>::empty());
        match dec_fields(fields_model(fs@), bytes@.skip(pos as int)) {
            Some(q) => {
                assert((vals_model(acc@) + q.0) =~= q.0);
            },
            None => {},
        }
    }
    while i < n
        invariant
            n == fs@.len(),
            fields_model(fs@).len() == n,
            pos <= p <= bytes@.len(),
            0 <= i <= n,
            vals_model(acc@).len() == i,
            fields_match(fields_model(fs@).take(i as int), vals_model(acc@)),
            (match dec_fields(fields_model(fs@).skip(i as int), bytes@.skip(p as int)) {
                Some(q) => dec_fields(fields_model(fs@), bytes@.skip(pos as int)) == Some(
                    ((vals_model(acc@) + q.0), (p - pos) + q.1),
                ),
                None => dec_fields(fields_model(fs@), bytes@.skip(pos as int)) is None,
            }),
        decreases n - i,
    {
        proof {
            lemma_fields_model_len(fs@);
            lemma_fields_model_index(fs@, i as int);
        }
        match decode_value(&fs[i].ty, bytes, p) {
            Err(e) => {
                proof {
                    let fsm = fields_model(fs@);
                    assert(fsm.skip(i as int)[0] == fsm[i as int]);
                    assert(dec_fields(fsm.skip(i as int), bytes@.skip(p as int)) is None);
                }
                return Err(e);
            },
            Ok((v, end)) => {
                proof {
                    let fsm = fields_model(fs@);
                    let vm = v.model();
                    lemma_vals_model_len(acc@);
                    lemma_vals_model_push(acc@, v);
                    assert(fsm.skip(i as int)[0] == fsm[i as int]);
                    assert(fsm.skip(i as int).drop_first() =~= fsm.skip(i as int + 1));
                    assert(bytes@.skip(p as int).skip(end - p) =~= bytes@.skip(end as int));
                    match dec_fields(fsm.skip(i as int + 1), bytes@.skip(end as int)) {
                        Some(q) => {
                            assert(dec_fields(fsm.skip(i as int), bytes@.skip(p as int)) == Some(
                                ((seq![vm] + q.0), (end - p) + q.1),
                            ));
                            assert((vals_model(acc@) + (seq![vm] + q.0)) =~= (vals_model(acc@)
                                + seq![vm]) + q.0);
                        },
                        None => {
                            assert(dec_fields(fsm.skip(i as int), bytes@.skip(p as int)) is None);
                        },
                    }
                    // the decoded prefix keeps fitting the shape
                    lemma_fields_match_iff(fsm.take(i as int), vals_model(acc@));
                    lemma_fields_match_iff(fsm.take(i as int + 1), vals_model(acc@.push(v)));
                    assert forall|k: int|
                        0 <= k < i as int + 1 implies ty_matches(
                        #[trigger] fsm.take(i as int + 1)[k].ty,
                        vals_model(acc@.push(v))[k],
                    ) by {
                        assert(fsm.take(i as int + 1)[k] == fsm[k]);
                        assert(vals_model(acc@.push(v)) == vals_model(acc@) + seq![vm]);
                        if k < i as int {
                            assert(vals_model(acc@.push(v))[k] == vals_model(acc@)[k]);
                            assert(fsm.take(i as int)[k] == fsm[k]);
                            assert(ty_matches(fsm.take(i as int)[k].ty, vals_model(acc@)[k]));
                        } else {
                            assert(vals_model(acc@.push(v))[k] == vm);
                        }
                    }
                }
                acc.push(v);
                p = end;
                i += 1;
            },
        }
    }
    proof {
        let fsm = fields_model(fs@);
        assert(fsm.skip(n as int) =~= Seq::<FieldModel>::empty());
        assert(dec_fields(fsm.skip(n as int), bytes@.skip(p as int)) == Some(
            (Seq::<ValModel>::empty(), 0int),
        ));
        assert((vals_model(acc@) + Seq::<ValModel>::empty()) =~= vals_model(acc@));
        assert(fsm.take(n as int) =~= fsm);
    }
    Ok((acc, p))
}

/// What decoding a whole buffer against a shape yields: the field values, or
/// nothing when a fixed-width read runs out of input.
pub open spec fn dec_record(fs: Seq<FieldModel>, s: Seq<u8>) -> Option<Seq<ValModel>> {
    match dec_fields(fs, s) {
        Some(q) => Some(q.0),
        None => None,
    }
}

/// Decodes a record instance from a buffer against its shape; bytes after
/// the last field are ignored.
pub fn decode_record(fs: &Vec<FieldDescriptor>, bytes: &Vec<u8>) -> (r: Result<
    Vec<Value>,
    ConfigError,
>)
    ensures
        match r {
            Ok(vs) => {
                &&& dec_record(fields_model(fs@), bytes@) == Some(vals_model(vs@))
                &&& fields_match(fields_model(fs@), vals_model(vs@))
            },
            Err(e) => {
                &&& e == ConfigError::TruncatedInput
                &&& dec_record(fields_model(fs@), bytes@) is None
            },
        },
{
    proof {
        assert(bytes@.skip(0) =~= bytes@);
    }
    match decode_fields(fs, bytes, 0) {
        Ok(p) => Ok(p.0),
        Err(e) => Err(e),
    }
}

proof fn lemma_encode_scalar_no_zero(c: u32)
    requires
        is_scalar(c),
        c != 0,
    ensures
        forall|j: int| 0 <= j < encode_scalar(c).len() ==> encode_scalar(c)[j] != 0,
{
    if has_width_1_encoding(c) {
        assert(((c & 0x7F) as u8) != 0) by (bit_vector)
            requires
                c != 0 && c <= 0x7F,
        ;
    } else if has_width_2_encoding(c) {
        assert((0xC0 | ((c >> 6) & 0x1F) as u8) != 0) by (bit_vector);
        assert((0x80 | (c & 0x3F) as u8) != 0) by (bit_vector);
    } else if has_width_3_encoding(c) {
        assert((0xE0 | ((c >> 12) & 0x0F) as u8) != 0) by (bit_vector);
        assert((0x80 | ((c >> 6) & 0x3F) as u8) != 0) by (bit_vector);
        assert((0x80 | (c & 0x3F) as u8) != 0) by (bit_vector);
    } else {
        assert((0xF0 | ((c >> 18) & 0x7) as u8) != 0) by (bit_vector);
        assert((0x80 | ((c >> 12) & 0x3F) as u8) != 0) by (bit_vector);
        assert((0x80 | ((c >> 6) & 0x3F) as u8) != 0) by (bit_vector);
        assert((0x80 | (c & 0x3F) as u8) != 0) by (bit_vector);
    }
}

/// The UTF-8 bytes of text without a zero character hold no zero byte.
pub proof fn lemma_encode_utf8_no_zero(s: Seq<char>)
    requires
        forall|i: int| 0 <= i < s.len() ==> #[trigger] s[i] != '\0',
    ensures
        forall|j: int| 0 <= j < encode_utf8(s).len() ==> #[trigger] encode_utf8(s)[j] != 0,
    decreases s.len(),
{
    if s.len() > 0 {
        let c = s[0] as u32;
        char_is_scalar(s[0]);
        assert('\0' as u32 == 0);
        if c == 0 {
            char_u32_cast(s[0], c);
            char_u32_cast('\0', 0);
            assert(false);
        }
        lemma_encode_scalar_no_zero(c);
        assert forall|i: int| 0 <= i < s.drop_first().len() implies #[trigger] s.drop_first()[i]
            != '\0' by {
            assert(s.drop_first()[i] == s[i + 1]);
        }
        lemma_encode_utf8_no_zero(s.drop_first());
        assert forall|j: int| 0 <= j < encode_utf8(s).len() implies #[trigger] encode_utf8(s)[j]
            != 0 by {
            if j < encode_scalar(c).len() {
                assert(encode_utf8(s)[j] == encode_scalar(c)[j]);
            } else {
                assert(encode_utf8(s)[j] == encode_utf8(s.drop_first())[j - encode_scalar(
                    c,
                ).len()]);
            }
        }
    }
}

/// Decoding the encoding of one matching field value, with anything after
/// it, yields the value back and consumes exactly the encoding.
pub proof fn lemma_round_trip_val(t: TyModel, v: ValModel, rest: Seq<u8>)
    requires
        ty_matches(t, v),
        no_nul_val(v),
    ensures
        dec_val(t, enc_val(t, v) + rest) == Some((v, enc_val(t, v).len() as int)),
    decreases v,
{
    let e = enc_val(t, v);
    let s = e + rest;
    match (t, v) {
        (TyModel::U8, ValModel::U8(x)) => {
            assert(s[0] == x);
        },
        (TyModel::U16, ValModel::U16(x)) => {
            assert(s[0] == ((x >> 8) & 0xff) as u8);
            assert(s[1] == (x & 0xff) as u8);
            assert((((((x >> 8) & 0xff) as u8 as u16) << 8) | ((x & 0xff) as u8 as u16))
                == x) by (bit_vector);
        },
        (TyModel::U32, ValModel::U32(x)) => {
            assert(s[0] == ((x >> 24) & 0xff) as u8);
            assert(s[1] == ((x >> 16) & 0xff) as u8);
            assert(s[2] == ((x >> 8) & 0xff) as u8);
            assert(s[3] == (x & 0xff) as u8);
            assert(((((x >> 24) & 0xff) as u8 as u32) << 24) | ((((x >> 16) & 0xff) as u8
                as u32) << 16) | ((((x >> 8) & 0xff) as u8 as u32) << 8) | ((x & 0xff) as u8
                as u32) == x) by (bit_vector);
        },
        (TyModel::U64, ValModel::U64(x)) => {
            assert(s[0] == ((x >> 56) & 0xff) as u8);
            assert(s[1] == ((x >> 48) & 0xff) as u8);
            assert(s[2] == ((x >> 40) & 0xff) as u8);
            assert(s[3] == ((x >> 32) & 0xff) as u8);
            assert(s[4] == ((x >> 24) & 0xff) as u8);
            assert(s[5] == ((x >> 16) & 0xff) as u8);
            assert(s[6] == ((x >> 8) & 0xff) as u8);
            assert(s[7] == (x & 0xff) as u8);
            assert(((((x >> 56) & 0xff) as u8 as u64) << 56) | ((((x >> 48) & 0xff) as u8
                as u64) << 48) | ((((x >> 40) & 0xff) as u8 as u64) << 40) | ((((x >> 32) & 0xff)
                as u8 as u64) << 32) | ((((x >> 24) & 0xff) as u8 as u64) << 24) | ((((x >> 16)
                & 0xff) as u8 as u64) << 16) | ((((x >> 8) & 0xff) as u8 as u64) << 8) | ((x
                & 0xff) as u8 as u64) == x) by (bit_vector);
        },
        (TyModel::I8, ValModel::I8(x)) => {
            assert(s[0] == x as u8);
            assert(((x as u8) as i8) == x) by (bit_vector);
        },
        (TyModel::I16, ValModel::I16(x)) => {
            assert(s[0] == (((x as u16) >> 8) & 0xff) as u8);
            assert(s[1] == ((x as u16) & 0xff) as u8);
            assert(((((((x as u16) >> 8) & 0xff) as u8 as u16) << 8) | (((x as u16) & 0xff) as u8
                as u16)) as i16 == x) by (bit_vector);
        },
        (TyModel::I32, ValModel::I32(x)) => {
            assert(s[0] == (((x as u32) >> 24) & 0xff) as u8);
            assert(s[1] == (((x as u32) >> 16) & 0xff) as u8);
            assert(s[2] == (((x as u32) >> 8) & 0xff) as u8);
            assert(s[3] == ((x as u32) & 0xff) as u8);
            assert((((((x as u32) >> 24) & 0xff) as u8 as u32) << 24) | (((((x as u32) >> 16)
                & 0xff) as u8 as u32) << 16) | (((((x as u32) >> 8) & 0xff) as u8 as u32) << 8) | (((
            x as u32) & 0xff) as u8 as u32) == x as u32) by (bit_vector);
            assert(((x as u32) as i32) == x) by (bit_vector);
        },
        (TyModel::I64, ValModel::I64(x)) => {
            assert(s[0] == (((x as u64) >> 56) & 0xff) as u8);
            assert(s[1] == (((x as u64) >> 48) & 0xff) as u8);
            assert(s[2] == (((x as u64) >> 40) & 0xff) as u8);
            assert(s[3] == (((x as u64) >> 32) & 0xff) as u8);
            assert(s[4] == (((x as u64) >> 24) & 0xff) as u8);
            assert(s[5] == (((x as u64) >> 16) & 0xff) as u8);
            assert(s[6] == (((x as u64) >> 8) & 0xff) as u8);
            assert(s[7] == ((x as u64) & 0xff) as u8);
            assert((((((x as u64) >> 56) & 0xff) as u8 as u64) << 56) | (((((x as u64) >> 48)
                & 0xff) as u8 as u64) << 48) | (((((x as u64) >> 40) & 0xff) as u8 as u64) << 40)
                | (((((x as u64) >> 32) & 0xff) as u8 as u64) << 32) | (((((x as u64) >> 24)
                & 0xff) as u8 as u64) << 24) | (((((x as u64) >> 16) & 0xff) as u8 as u64) << 16)
                | (((((x as u64) >> 8) & 0xff) as u8 as u64) << 8) | (((x as u64) & 0xff) as u8
                as u64) == x as u64) by (bit_vector);
            assert(((x as u64) as i64) == x) by (bit_vector);
        },
        (TyModel::Bool, ValModel::Bool(b)) => {
            assert(s[0] == (if b {
                1u8
            } else {
                0u8
            }));
        },
        (TyModel::Text, ValModel::Text(txt)) => {
            let eb = encode_utf8(txt);
            let n = eb.len() as int;
            lemma_encode_utf8_no_zero(txt);
            assert forall|k: int| 0 <= k < n implies s[k] != 0 by {
                assert(s[k] == eb[k]);
            }
            assert(s[n] == 0);
            lemma_scan_first_zero(s, n);
            assert(s.take(n) =~= eb);
            encode_utf8_valid_utf8(txt);
            encode_utf8_decode_utf8(txt);
            assert(e.len() == n + 1);
        },
        (TyModel::Rec(fs), ValModel::Rec(vs)) => {
            lemma_round_trip_fields(fs, vs, rest);
        },
        _ => {},
    }
}

/// Decoding the encoding of a matching record instance, with anything after
/// it, yields the instance back and consumes exactly the encoding.
pub proof fn lemma_round_trip_fields(fs: Seq<FieldModel>, vs: Seq<ValModel>, rest: Seq<u8>)
    requires
        fields_match(fs, vs),
        no_nul_vals(vs),
    ensures
        dec_fields(fs, enc_fields(fs, vs) + rest) == Some((vs, enc_fields(fs, vs).len() as int)),
    decreases vs,
{
    let e = enc_fields(fs, vs);
    let s = e + rest;
    if vs.len() == 0 {
        assert(vs =~= Seq::<ValModel>::empty());
    } else {
        let e0 = enc_val(fs[0].ty, vs[0]);
        let erest = enc_fields(fs.drop_first(), vs.drop_first());
        assert(s =~= e0 + (erest + rest));
        lemma_round_trip_val(fs[0].ty, vs[0], erest + rest);
        assert(s.skip(e0.len() as int) =~= erest + rest);
        lemma_round_trip_fields(fs.drop_first(), vs.drop_first(), rest);
        assert(seq![vs[0]] + vs.drop_first() =~= vs);
    }
}

/// ROUND TRIP: decoding the encoding of any record instance that fits its
/// shape yields an equal instance, as long as no text field of the instance
/// holds a zero character.
pub proof fn lemma_round_trip(fs: Seq<FieldModel>, vs: Seq<ValModel>)
    requires
        fields_match(fs, vs),
        no_nul_vals(vs),
    ensures
        dec_record(fs, enc_fields(fs, vs)) == Some(vs),
{
    assert(enc_fields(fs, vs) + Seq::<u8>::empty() =~= enc_fields(fs, vs));
    lemma_round_trip_fields(fs, vs, Seq::empty());
}

/// Whether a field type is made of fixed-width parts only (no text field
/// anywhere inside it).
pub open spec fn ty_fixed(t: TyModel) -> bool
    decreases t,
{
    match t {
        TyModel::Text => false,
        TyModel::Rec(fs) => fields_fixed(fs),
        _ => true,
    }
}

/// Whether a shape is made of fixed-width fields only.
pub open spec fn fields_fixed(fs: Seq<FieldModel>) -> bool
    decreases fs,
{
    fs.len() == 0 || (ty_fixed(fs[0].ty) && fields_fixed(fs.drop_first()))
}

/// The width in bytes of a fixed-width field type.
pub open spec fn ty_width(t: TyModel) -> int
    decreases t,
{
    match t {
        TyModel::U8 => 1,
        TyModel::U16 => 2,
        TyModel::U32 => 4,
        TyModel::U64 => 8,
        TyModel::I8 => 1,
        TyModel::I16 => 2,
        TyModel::I32 => 4,
        TyModel::I64 => 8,
        TyModel::Bool => 1,
        TyModel::Text => 0,
        TyModel::Rec(fs) => fields_width(fs),
    }
}

/// The summed width in bytes of a shape of fixed-width fields.
pub open spec fn fields_width(fs: Seq<FieldModel>) -> int
    decreases fs,
{
    if fs.len() == 0 {
        0
    } else {
        ty_width(fs[0].ty) + fields_width(fs.drop_first())
    }
}

pub proof fn lemma_ty_width_nonneg(t: TyModel)
    ensures
        ty_width(t) >= 0,
    decreases t,
{
    if let TyModel::Rec(fs) = t {
        lemma_fields_width_nonneg(fs);
    }
}

pub proof fn lemma_fields_width_nonneg(fs: Seq<FieldModel>)
    ensures
        fields_width(fs) >= 0,
    decreases fs,
{
    if fs.len() > 0 {
        lemma_ty_width_nonneg(fs[0].ty);
        lemma_fields_width_nonneg(fs.drop_first());
    }
}

/// A fixed-width field decodes exactly its width, and fails exactly when
/// fewer bytes than its width remain.
pub proof fn lemma_fixed_dec_val(t: TyModel, s: Seq<u8>)
    requires
        ty_fixed(t),
    ensures
        (dec_val(t, s) is None) == (s.len() < ty_width(t)),
        match dec_val(t, s) {
            Some(q) => q.1 == ty_width(t),
            None => true,
        },
    decreases t,
{
    if let TyModel::Rec(fs) = t {
        lemma_fixed_dec_fields(fs, s);
    }
}

/// A shape of fixed-width fields decodes exactly its summed width, and fails
/// exactly when the input is shorter than that sum.
pub proof fn lemma_fixed_dec_fields(fs: Seq<FieldModel>, s: Seq<u8>)
    requires
        fields_fixed(fs),
    ensures
        (dec_fields(fs, s) is None) == (s.len() < fields_width(fs)),
        match dec_fields(fs, s) {
            Some(q) => q.1 == fields_width(fs),
            None => true,
        },
    decreases fs,
{
    if fs.len() > 0 {
        lemma_fixed_dec_val(fs[0].ty, s);
        lemma_ty_width_nonneg(fs[0].ty);
        lemma_fields_width_nonneg(fs.drop_first());
        match dec_val(fs[0].ty, s) {
            None => {},
            Some(q) => {
                lemma_fixed_dec_fields(fs.drop_first(), s.skip(q.1));
            },
        }
    }
}

/// TRUNCATION: against a shape whose fields are all fixed-width, a buffer
/// shorter than the summed field widths never decodes; no partial record
/// comes back.
pub proof fn lemma_truncated_input(fs: Seq<FieldModel>, s: Seq<u8>)
    requires
        fields_fixed(fs),
        s.len() < fields_width(fs),
    ensures
        dec_record(fs, s) is None,
{
    lemma_fixed_dec_fields(fs, s);
}

/// TEXT SOFT STOP: a text field whose terminator was cut off still decodes
/// to the same text, consuming the whole input.
pub proof fn lemma_text_soft_stop(s: Seq<char>)
    requires
        forall|i: int| 0 <= i < s.len() ==> #[trigger] s[i] != '\0',
    ensures
        dec_val(TyModel::Text, encode_utf8(s)) == Some(
            (ValModel::Text(s), encode_utf8(s).len() as int),
        ),
{
    let eb = encode_utf8(s);
    lemma_encode_utf8_no_zero(s);
    lemma_scan_first_zero(eb, eb.len() as int);
    assert(eb.take(eb.len() as int) =~= eb);
    encode_utf8_valid_utf8(s);
    encode_utf8_decode_utf8(s);
}

} // verus!
