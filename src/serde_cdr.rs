//! Serialization of messages to the CDR little-endian wire format, behind the
//! four-byte encapsulation header that the bus expects.

use vstd::prelude::*;
use crate::wire::{
    conforms, dec, decode, enc, encode, check_fits, fits, lemma_dec_conforms, lemma_decode_encode,
    lemma_conforms_parts, lemma_fits_parts, lemma_view_shapes_ext, lemma_view_values,
    lemma_view_values_ext, view_values, Datum, Prim, Shape, ShapeView, Value,
};
use crate::bytes::lemma_pow256_8;

verus! {

/// Why a message could not be written or read.
#[derive(PartialEq, Eq, Structural, Clone, Copy, Debug)]
pub enum Error {
    /// A text or a sequence of the message is too long for its 32-bit count.
    Serialization,
    /// The bytes do not hold a message of the expected type.
    Deserialization,
}

/// A message type with a fixed record shape.
pub trait Message: Sized {
    /// The shape of every message of this type.
    spec fn shape_view() -> ShapeView;

    /// What the message holds, as a datum of its shape.
    spec fn datum(&self) -> Datum;

    fn shape() -> (s: Shape)
        ensures
            s@ == Self::shape_view(),
    ;

    fn to_value(&self) -> (v: Value)
        ensures
            v@ == self.datum(),
            fits(v@) ==> conforms(v@, Self::shape_view()),
    ;

    fn from_value(v: &Value) -> (r: Self)
        requires
            conforms(v@, Self::shape_view()),
        ensures
            r.datum() == v@,
    ;
}

/// The encapsulation header of little-endian CDR.
pub open spec fn header_le() -> Seq<u8> {
    seq![0u8, 1u8, 0u8, 0u8]
}

/// Whether `b` starts with an encapsulation header of little-endian CDR.
pub open spec fn framed(b: Seq<u8>) -> bool {
    b.len() >= 4 && (b[1] == 1 || b[1] == 3)
}

/// Writes `msg`: the encapsulation header, then its fields.
pub fn serialize<T: Message>(msg: &T) -> (r: Result<Vec<u8>, Error>)
    ensures
        r is Ok <==> fits(msg.datum()),
        r matches Ok(b) ==> b@ == header_le() + enc(msg.datum(), 0),
        r matches Err(e) ==> e == Error::Serialization,
{
    let v = msg.to_value();
    if !check_fits(&v) {
        return Err(Error::Serialization);
    }
    let body = encode(&v);
    let mut out: Vec<u8> = vec![0u8, 1u8, 0u8, 0u8];
    let mut i: usize = 0;
    while i < body.len()
        invariant
            i <= body@.len(),
            out@ == header_le() + body@.subrange(0, i as int),
        decreases body@.len() - i,
    {
        out.push(body[i]);
        assert(body@.subrange(0, i + 1) =~= body@.subrange(0, i as int).push(body@[i as int]));
        i = i + 1;
    }
    assert(body@.subrange(0, body@.len() as int) =~= body@);
    Ok(out)
}

/// Reads a message of type `T` from the bytes that `serialize` writes; bytes
/// after the message are ignored.
pub fn deserialize<T: Message>(bytes: &[u8]) -> (r: Result<T, Error>)
    ensures
        match dec(T::shape_view(), bytes@.subrange(4, bytes@.len() as int), 0) {
            Some((d, _)) => framed(bytes@) ==> (r matches Ok(m) && m.datum() == d),
            None => framed(bytes@) ==> (r matches Err(e) && e == Error::Deserialization),
        },
        !framed(bytes@) ==> (r matches Err(e) && e == Error::Deserialization),
{
    if bytes.len() < 4 || (bytes[1] != 1 && bytes[1] != 3) {
        return Err(Error::Deserialization);
    }
    let body = vstd::slice::slice_subrange(bytes, 4, bytes.len());
    let s = T::shape();
    match decode(&s, body) {
        None => Err(Error::Deserialization),
        Some(v) => {
            proof {
                lemma_dec_conforms(s@, body@, 0);
            }
            Ok(T::from_value(&v))
        },
    }
}

/// A message reads back as written: what `deserialize` returns for the bytes
/// of `serialize` holds the same datum.
pub proof fn lemma_message_round_trip<T: Message>(m: T)
    requires
        fits(m.datum()),
        conforms(m.datum(), T::shape_view()),
    ensures
        framed(header_le() + enc(m.datum(), 0)),
        ({
            let b = header_le() + enc(m.datum(), 0);
            b.subrange(4, b.len() as int) == enc(m.datum(), 0)
        }),
        dec(T::shape_view(), enc(m.datum(), 0), 0) == Some((m.datum(), enc(m.datum(), 0).len())),
{
    let b = header_le() + enc(m.datum(), 0);
    assert(b.subrange(4, b.len() as int) =~= enc(m.datum(), 0));
    lemma_decode_encode(T::shape_view(), m.datum());
}

/// The bits of a primitive value.
pub fn bits_of(v: &Value) -> (r: u64)
    ensures
        v@ matches Datum::Prim(_, b) ==> r == b,
{
    match v {
        Value::Prim(_, b) => *b,
        _ => 0,
    }
}

/// The text of a text value.
pub fn text_of(v: &Value) -> (r: String)
    ensures
        v@ matches Datum::Text(cs) ==> r@ == cs,
{
    match v {
        Value::Text(t) => t.clone(),
        _ => String::new(),
    }
}

/// The elements of a record, sequence or array value.
pub fn parts_of(v: &Value) -> (r: &Vec<Value>)
    requires
        v@ is Record || v@ is Sequence || v@ is Array,
    ensures
        v@ is Record ==> v@ == Datum::Record(view_values(r@)),
        v@ is Sequence ==> v@ == Datum::Sequence(view_values(r@)),
        v@ is Array ==> v@ == Datum::Array(view_values(r@)),
        view_values(r@).len() == r@.len(),
        forall|i: int| 0 <= i < r@.len() ==> #[trigger] view_values(r@)[i] == r@[i]@,
{
    match v {
        Value::Record(vs) => {
            proof {
                lemma_view_values(vs@);
            }
            vs
        },
        Value::Sequence(vs) => {
            proof {
                lemma_view_values(vs@);
            }
            vs
        },
        Value::Array(vs) => {
            proof {
                lemma_view_values(vs@);
            }
            vs
        },
        _ => vstd::pervasive::unreached(),
    }
}


pub proof fn lemma_i32_bits(b: u64)
    requires
        b < 0x1_0000_0000,
    ensures
        ((((b as u32) as i32) as u32) as u64) == b,
{
    assert(b < 0x1_0000_0000 ==> ((((b as u32) as i32) as u32) as u64) == b) by (bit_vector);
}

pub proof fn lemma_i8_bits(b: u64)
    requires
        b < 0x100,
    ensures
        ((((b as u8) as i8) as u8) as u64) == b,
{
    assert(b < 0x100 ==> ((((b as u8) as i8) as u8) as u64) == b) by (bit_vector);
}

pub proof fn lemma_i64_bits(b: u64)
    ensures
        ((b as i64) as u64) == b,
{
    assert(((b as i64) as u64) == b) by (bit_vector);
}

/// A time stamp or a duration: a signed count of seconds and the nanoseconds
/// past it.
pub open spec fn stamp_shape() -> ShapeView {
    ShapeView::Record(seq![ShapeView::Prim(Prim::Int32), ShapeView::Prim(Prim::UInt32)])
}

pub open spec fn stamp_datum(sec: i32, nanosec: u32) -> Datum {
    Datum::Record(
        seq![Datum::Prim(Prim::Int32, (sec as u32) as u64), Datum::Prim(Prim::UInt32, nanosec as u64)],
    )
}

pub fn stamp_shape_exec() -> (s: Shape)
    ensures
        s@ == stamp_shape(),
{
    let fs = vec![Shape::Prim(Prim::Int32), Shape::Prim(Prim::UInt32)];
    proof {
        lemma_view_shapes_ext(fs@, seq![ShapeView::Prim(Prim::Int32), ShapeView::Prim(Prim::UInt32)]);
    }
    Shape::Record(fs)
}

pub fn stamp_value(sec: i32, nanosec: u32) -> (v: Value)
    ensures
        v@ == stamp_datum(sec, nanosec),
        conforms(v@, stamp_shape()),
{
    let vs = vec![Value::Prim(Prim::Int32, sec as u32 as u64), Value::Prim(Prim::UInt32, nanosec as u64)];
    proof {
        lemma_view_values_ext(vs@, stamp_datum(sec, nanosec)->Record_0);
        lemma_pow256_8();
        lemma_conforms_parts(stamp_datum(sec, nanosec), stamp_shape());
    }
    Value::Record(vs)
}

pub fn stamp_from_value(v: &Value) -> (r: (i32, u32))
    requires
        conforms(v@, stamp_shape()),
    ensures
        stamp_datum(r.0, r.1) == v@,
{
    proof {
        lemma_conforms_parts(v@, stamp_shape());
        lemma_pow256_8();
    }
    let vs = parts_of(v);
    let b0 = bits_of(&vs[0]);
    let b1 = bits_of(&vs[1]);
    proof {
        let ds = view_values(vs@);
        assert(conforms(ds[0], ShapeView::Prim(Prim::Int32)));
        assert(conforms(ds[1], ShapeView::Prim(Prim::UInt32)));
        assert(ds[0] == vs@[0]@);
        lemma_i32_bits(b0);
        assert(stamp_datum((b0 as u32) as i32, b1 as u32)->Record_0 =~= view_values(vs@));
    }
    ((b0 as u32) as i32, b1 as u32)
}


/// A sequence of bytes.
pub open spec fn bytes_shape() -> ShapeView {
    ShapeView::Sequence(Box::new(ShapeView::Prim(Prim::UInt8)))
}

pub open spec fn bytes_datum(b: Seq<u8>) -> Datum {
    Datum::Sequence(Seq::new(b.len(), |i: int| Datum::Prim(Prim::UInt8, b[i] as u64)))
}

pub fn bytes_shape_exec() -> (s: Shape)
    ensures
        s@ == bytes_shape(),
{
    let e = Shape::Prim(Prim::UInt8);
    assert(e@ == ShapeView::Prim(Prim::UInt8));
    Shape::Sequence(Box::new(e))
}

pub fn bytes_value(b: &Vec<u8>) -> (v: Value)
    ensures
        v@ == bytes_datum(b@),
        fits(v@) ==> conforms(v@, bytes_shape()),
{
    let mut vs: Vec<Value> = Vec::new();
    let mut i: usize = 0;
    while i < b.len()
        invariant
            i <= b@.len(),
            view_values(vs@) == Seq::new(i as nat, |j: int| Datum::Prim(Prim::UInt8, b@[j] as u64)),
        decreases b@.len() - i,
    {
        let ghost before = vs@;
        let x = Value::Prim(Prim::UInt8, b[i] as u64);
        assert(x@ == Datum::Prim(Prim::UInt8, b@[i as int] as u64));
        vs.push(x);
        assert(vs@.drop_last() =~= before);
        assert(view_values(vs@) == view_values(before).push(x@));
        assert(view_values(vs@) =~= Seq::new((i + 1) as nat, |j: int| Datum::Prim(Prim::UInt8, b@[j] as u64)));
        i = i + 1;
    }
    let v = Value::Sequence(vs);
    proof {
        lemma_pow256_8();
        lemma_fits_parts(v@);
        lemma_conforms_parts(v@, bytes_shape());
    }
    v
}

pub fn bytes_from_value(v: &Value) -> (r: Vec<u8>)
    requires
        conforms(v@, bytes_shape()),
    ensures
        bytes_datum(r@) == v@,
{
    proof {
        lemma_conforms_parts(v@, bytes_shape());
        lemma_pow256_8();
    }
    let vs = parts_of(v);
    let mut r: Vec<u8> = Vec::new();
    let mut i: usize = 0;
    while i < vs.len()
        invariant
            i <= vs@.len(),
            view_values(vs@).len() == vs@.len(),
            forall|j: int| 0 <= j < vs@.len() ==> #[trigger] view_values(vs@)[j] == vs@[j]@,
            forall|j: int|
                0 <= j < vs@.len() ==> conforms(#[trigger] view_values(vs@)[j], ShapeView::Prim(Prim::UInt8)),
            r@.len() == i,
            forall|j: int| 0 <= j < i ==> Datum::Prim(Prim::UInt8, r@[j] as u64) == #[trigger] view_values(vs@)[j],
        decreases vs@.len() - i,
    {
        let b = bits_of(&vs[i]);
        assert(conforms(view_values(vs@)[i as int], ShapeView::Prim(Prim::UInt8)));
        assert(vs@[i as int]@ == view_values(vs@)[i as int]);
        proof {
            lemma_pow256_8();
        }
        assert(b < 0x100);
        r.push(b as u8);
        i = i + 1;
    }
    assert(bytes_datum(r@)->Sequence_0 =~= view_values(vs@));
    r
}

pub open spec fn bool_datum(b: bool) -> Datum {
    Datum::Prim(Prim::Bool, if b { 1 } else { 0 })
}

pub fn bool_value(b: bool) -> (v: Value)
    ensures
        v@ == bool_datum(b),
        conforms(v@, ShapeView::Prim(Prim::Bool)),
{
    Value::Prim(Prim::Bool, if b { 1 } else { 0 })
}

pub fn bool_from_value(v: &Value) -> (r: bool)
    requires
        conforms(v@, ShapeView::Prim(Prim::Bool)),
    ensures
        bool_datum(r) == v@,
{
    bits_of(v) == 1
}

} // verus!
