//! The little-endian CDR wire format: values of any record shape built from
//! primitives, text, fixed-size arrays, sequences and nested records.
//!
//! A primitive of width `w` starts at the next offset, counted from the start
//! of the buffer, that is a multiple of `w`; the padding before it is zero.
//! Text is a 32-bit count of its UTF-8 bytes plus one, the bytes, and a zero
//! terminator. A sequence is a 32-bit count followed by its elements; an array
//! or a record is its elements alone.

use vstd::prelude::*;
use vstd::arithmetic::div_mod::{lemma_fundamental_div_mod, lemma_mod_multiples_basic};
use vstd::utf8::{
    decode_utf8, decode_utf8_encode_utf8, encode_utf8, encode_utf8_decode_utf8, encode_utf8_valid_utf8, valid_utf8,
};
use crate::bytes::{
    le_bytes, le_value, lemma_le_bytes_len, lemma_le_bytes_value, lemma_le_value_bound, lemma_pow256_8, lemma_pow256_mono, pow256,
    read_unsigned,
};

verus! {

/// A primitive type; its values travel as their bits.
#[derive(PartialEq, Eq, Structural, Clone, Copy, Debug)]
pub enum Prim {
    Bool,
    Int8,
    UInt8,
    Int16,
    UInt16,
    Int32,
    UInt32,
    Int64,
    UInt64,
    Float32,
    Float64,
}

impl Prim {
    /// Bytes taken by one value, which is also its alignment.
    pub open spec fn width_spec(self) -> nat {
        match self {
            Prim::Bool | Prim::Int8 | Prim::UInt8 => 1,
            Prim::Int16 | Prim::UInt16 => 2,
            Prim::Int32 | Prim::UInt32 | Prim::Float32 => 4,
            Prim::Int64 | Prim::UInt64 | Prim::Float64 => 8,
        }
    }

    pub fn width(&self) -> (r: usize)
        ensures
            r == self.width_spec(),
    {
        match self {
            Prim::Bool | Prim::Int8 | Prim::UInt8 => 1,
            Prim::Int16 | Prim::UInt16 => 2,
            Prim::Int32 | Prim::UInt32 | Prim::Float32 => 4,
            Prim::Int64 | Prim::UInt64 | Prim::Float64 => 8,
        }
    }

    /// Whether `bits` is a value of this type.
    pub open spec fn holds(self, bits: nat) -> bool {
        if self == Prim::Bool {
            bits <= 1
        } else {
            bits < pow256(self.width_spec())
        }
    }
}

/// The shape of a record, agreed on by writer and reader.
#[derive(Debug)]
pub enum Shape {
    Prim(Prim),
    Text,
    /// A fixed number of elements of one shape.
    Array(usize, Box<Shape>),
    /// A counted number of elements of one shape.
    Sequence(Box<Shape>),
    /// Fields in declaration order.
    Record(Vec<Shape>),
}

/// What a shape describes, as mathematical objects.
pub enum ShapeView {
    Prim(Prim),
    Text,
    Array(nat, Box<ShapeView>),
    Sequence(Box<ShapeView>),
    Record(Seq<ShapeView>),
}

pub open spec fn view_shape(s: Shape) -> ShapeView
    decreases s, 0nat,
{
    match s {
        Shape::Prim(k) => ShapeView::Prim(k),
        Shape::Text => ShapeView::Text,
        Shape::Array(n, e) => ShapeView::Array(n as nat, Box::new(view_shape(*e))),
        Shape::Sequence(e) => ShapeView::Sequence(Box::new(view_shape(*e))),
        Shape::Record(fs) => ShapeView::Record(view_shapes(fs@)),
    }
}

pub open spec fn view_shapes(ss: Seq<Shape>) -> Seq<ShapeView>
    decreases ss, 1nat,
{
    if ss.len() == 0 {
        seq![]
    } else {
        view_shapes(ss.drop_last()).push(view_shape(ss.last()))
    }
}

impl View for Shape {
    type V = ShapeView;

    open spec fn view(&self) -> ShapeView {
        view_shape(*self)
    }
}

/// What a value holds, as mathematical objects.
pub enum Datum {
    Prim(Prim, u64),
    Text(Seq<char>),
    Array(Seq<Datum>),
    Sequence(Seq<Datum>),
    Record(Seq<Datum>),
}

/// A value of some shape.
#[derive(Debug)]
pub enum Value {
    /// A primitive of the given type, as its bits: two's complement for the
    /// signed integers, IEEE-754 for the floats, 0 or 1 for a boolean.
    Prim(Prim, u64),
    Text(String),
    Array(Vec<Value>),
    Sequence(Vec<Value>),
    Record(Vec<Value>),
}

pub open spec fn view_value(v: Value) -> Datum
    decreases v, 0nat,
{
    match v {
        Value::Prim(k, b) => Datum::Prim(k, b),
        Value::Text(s) => Datum::Text(s@),
        Value::Array(vs) => Datum::Array(view_values(vs@)),
        Value::Sequence(vs) => Datum::Sequence(view_values(vs@)),
        Value::Record(vs) => Datum::Record(view_values(vs@)),
    }
}

pub open spec fn view_values(vs: Seq<Value>) -> Seq<Datum>
    decreases vs, 1nat,
{
    if vs.len() == 0 {
        seq![]
    } else {
        view_values(vs.drop_last()).push(view_value(vs.last()))
    }
}

impl View for Value {
    type V = Datum;

    open spec fn view(&self) -> Datum {
        view_value(*self)
    }
}

/// Whether datum `d` is a value of shape `s` whose counts fit in 32 bits.
pub open spec fn conforms(d: Datum, s: ShapeView) -> bool
    decreases d,
{
    match d {
        Datum::Prim(k, b) => s == ShapeView::Prim(k) && k.holds(b as nat),
        Datum::Text(cs) => s is Text && encode_utf8(cs).len() + 1 < pow256(4),
        Datum::Array(ds) => match s {
            ShapeView::Array(n, e) => ds.len() == n && forall|i: int|
                0 <= i < ds.len() ==> conforms(#[trigger] ds[i], *e),
            _ => false,
        },
        Datum::Sequence(ds) => match s {
            ShapeView::Sequence(e) => ds.len() < pow256(4) && forall|i: int|
                0 <= i < ds.len() ==> conforms(#[trigger] ds[i], *e),
            _ => false,
        },
        Datum::Record(ds) => match s {
            ShapeView::Record(fs) => ds.len() == fs.len() && forall|i: int|
                0 <= i < ds.len() ==> conforms(#[trigger] ds[i], fs[i]),
            _ => false,
        },
    }
}

/// Zero bytes that bring offset `pos` to a multiple of `w`.
pub open spec fn pad(pos: nat, w: nat) -> nat {
    if w == 0 || pos % w == 0 {
        0
    } else {
        (w - pos % w) as nat
    }
}

pub open spec fn zeros(n: nat) -> Seq<u8> {
    Seq::new(n, |i: int| 0u8)
}

/// A primitive of type `k` written at offset `pos`.
pub open spec fn enc_prim(k: Prim, bits: nat, pos: nat) -> Seq<u8> {
    zeros(pad(pos, k.width_spec())) + le_bytes(bits, k.width_spec())
}

/// A count written at offset `pos`.
pub open spec fn enc_count(n: nat, pos: nat) -> Seq<u8> {
    enc_prim(Prim::UInt32, n, pos)
}

/// Text written at offset `pos`.
pub open spec fn enc_text(cs: Seq<char>, pos: nat) -> Seq<u8> {
    let b = encode_utf8(cs);
    enc_count(b.len() + 1, pos) + b + seq![0u8]
}

/// Datum `d` written at offset `pos` of a buffer.
pub open spec fn enc(d: Datum, pos: nat) -> Seq<u8>
    decreases d, 0nat,
{
    match d {
        Datum::Prim(k, b) => enc_prim(k, b as nat, pos),
        Datum::Text(cs) => enc_text(cs, pos),
        Datum::Array(ds) => enc_list(ds, pos),
        Datum::Sequence(ds) => {
            let c = enc_count(ds.len(), pos);
            c + enc_list(ds, pos + c.len())
        },
        Datum::Record(ds) => enc_list(ds, pos),
    }
}

/// The data `ds` written one after the other from offset `pos`.
pub open spec fn enc_list(ds: Seq<Datum>, pos: nat) -> Seq<u8>
    decreases ds, 1nat,
{
    if ds.len() == 0 {
        seq![]
    } else {
        let a = enc_list(ds.drop_last(), pos);
        a + enc(ds.last(), pos + a.len())
    }
}

/// Reading a primitive of type `k` at offset `pos`: the value and the offset
/// after it.
pub open spec fn dec_prim(k: Prim, b: Seq<u8>, pos: nat) -> Option<(u64, nat)> {
    let w = k.width_spec();
    let start = pos + pad(pos, w);
    if start + w > b.len() {
        None
    } else {
        let bits = le_value(b.subrange(start as int, (start + w) as int));
        if k == Prim::Bool && bits > 1 {
            None
        } else {
            Some((bits as u64, start + w))
        }
    }
}

/// Reading text at offset `pos`.
pub open spec fn dec_text(b: Seq<u8>, pos: nat) -> Option<(Seq<char>, nat)> {
    match dec_prim(Prim::UInt32, b, pos) {
        None => None,
        Some((n, p)) => if n == 0 || p + n > b.len() {
            None
        } else {
            let payload = b.subrange(p as int, p + n - 1);
            if b[p + n - 1] != 0 || !valid_utf8(payload) {
                None
            } else {
                Some((decode_utf8(payload), (p + n) as nat))
            }
        },
    }
}

/// Reading a datum of shape `s` at offset `pos`: the datum and the offset
/// after it, or `None` where the bytes hold none.
pub open spec fn dec(s: ShapeView, b: Seq<u8>, pos: nat) -> Option<(Datum, nat)>
    decreases s, 0nat, 0nat,
{
    match s {
        ShapeView::Prim(k) => match dec_prim(k, b, pos) {
            Some((v, p)) => Some((Datum::Prim(k, v), p)),
            None => None,
        },
        ShapeView::Text => match dec_text(b, pos) {
            Some((cs, p)) => Some((Datum::Text(cs), p)),
            None => None,
        },
        ShapeView::Array(n, e) => match dec_elems(*e, n, b, pos) {
            Some((ds, p)) => Some((Datum::Array(ds), p)),
            None => None,
        },
        ShapeView::Sequence(e) => match dec_prim(Prim::UInt32, b, pos) {
            None => None,
            Some((n, p0)) => match dec_elems(*e, n as nat, b, p0) {
                Some((ds, p)) => Some((Datum::Sequence(ds), p)),
                None => None,
            },
        },
        ShapeView::Record(fs) => match dec_fields(fs, b, pos) {
            Some((ds, p)) => Some((Datum::Record(ds), p)),
            None => None,
        },
    }
}

/// Reading `n` data of shape `e`, one after the other.
pub open spec fn dec_elems(e: ShapeView, n: nat, b: Seq<u8>, pos: nat) -> Option<(Seq<Datum>, nat)>
    decreases e, 1nat, n,
{
    if n == 0 {
        Some((seq![], pos))
    } else {
        match dec_elems(e, (n - 1) as nat, b, pos) {
            None => None,
            Some((ds, p)) => match dec(e, b, p) {
                None => None,
                Some((d, q)) => Some((ds.push(d), q)),
            },
        }
    }
}

/// Reading one datum of each shape in `fs`, one after the other.
pub open spec fn dec_fields(fs: Seq<ShapeView>, b: Seq<u8>, pos: nat) -> Option<(Seq<Datum>, nat)>
    decreases fs, 0nat, 0nat,
{
    if fs.len() == 0 {
        Some((seq![], pos))
    } else {
        match dec_fields(fs.drop_last(), b, pos) {
            None => None,
            Some((ds, p)) => match dec(fs.last(), b, p) {
                None => None,
                Some((d, q)) => Some((ds.push(d), q)),
            },
        }
    }
}


pub proof fn lemma_pad(pos: nat, w: nat)
    requires
        w > 0,
    ensures
        pad(pos, w) < w,
        (pos + pad(pos, w)) % w == 0,
{
    if pos % w != 0 {
        let q = pos / w;
        let r = pos % w;
        lemma_fundamental_div_mod(pos as int, w as int);
        assert(pos + (w - r) == (q + 1) * w) by (nonlinear_arith)
            requires
                pos == w * q + r,
        ;
        lemma_mod_multiples_basic((q + 1) as int, w as int);
    }
}

/// Where `b` holds `x + y` from `pos`, it holds `x` from `pos` and `y` right
/// after.
pub proof fn lemma_split(b: Seq<u8>, pos: int, x: Seq<u8>, y: Seq<u8>)
    requires
        0 <= pos,
        pos + x.len() + y.len() <= b.len(),
        b.subrange(pos, pos + x.len() + y.len()) == x + y,
    ensures
        b.subrange(pos, pos + x.len()) == x,
        b.subrange(pos + x.len(), pos + x.len() + y.len()) == y,
{
    assert(b.subrange(pos, pos + x.len()) =~= (x + y).subrange(0, x.len() as int));
    assert((x + y).subrange(0, x.len() as int) =~= x);
    assert(b.subrange(pos + x.len(), pos + x.len() + y.len()) =~= (x + y).subrange(
        x.len() as int,
        (x.len() + y.len()) as int,
    ));
    assert((x + y).subrange(x.len() as int, (x.len() + y.len()) as int) =~= y);
}

/// A primitive reads back as written.
pub proof fn lemma_prim_round_trip(k: Prim, bits: nat, b: Seq<u8>, pos: nat)
    requires
        k.holds(bits),
        pos + enc_prim(k, bits, pos).len() <= b.len(),
        b.subrange(pos as int, (pos + enc_prim(k, bits, pos).len()) as int) == enc_prim(k, bits, pos),
    ensures
        (bits as u64) as nat == bits,
        enc_prim(k, bits, pos).len() == pad(pos, k.width_spec()) + k.width_spec(),
        dec_prim(k, b, pos) == Some((bits as u64, pos + enc_prim(k, bits, pos).len())),
{
    let w = k.width_spec();
    lemma_pow256_8();
    lemma_pow256_mono(w, 8);
    assert(bits < pow256(w));
    lemma_le_bytes_value(bits, w);
    lemma_split(b, pos as int, zeros(pad(pos, w)), le_bytes(bits, w));
    assert(bits < 0x1_0000_0000_0000_0000);
    assert((bits as u64) as nat == bits);
}

/// Text reads back as written, and its count is its UTF-8 length plus one.
pub proof fn lemma_text_round_trip(cs: Seq<char>, b: Seq<u8>, pos: nat)
    requires
        encode_utf8(cs).len() + 1 < pow256(4),
        pos + enc_text(cs, pos).len() <= b.len(),
        b.subrange(pos as int, (pos + enc_text(cs, pos).len()) as int) == enc_text(cs, pos),
    ensures
        dec_prim(Prim::UInt32, b, pos) matches Some((n, _)) && n == encode_utf8(cs).len() + 1,
        dec_text(b, pos) == Some((cs, pos + enc_text(cs, pos).len())),
{
    let u = encode_utf8(cs);
    let c = enc_count(u.len() + 1, pos);
    assert(enc_text(cs, pos) =~= c + (u + seq![0u8]));
    lemma_split(b, pos as int, c, u + seq![0u8]);
    lemma_prim_round_trip(Prim::UInt32, u.len() + 1, b, pos);
    let p = (pos + c.len()) as int;
    lemma_split(b, p, u, seq![0u8]);
    assert(b[p + u.len()] == b.subrange(p + u.len(), p + u.len() + 1)[0]);
    encode_utf8_valid_utf8(cs);
    encode_utf8_decode_utf8(cs);
}

/// Every datum of shape `s` reads back as written, wherever it is written and
/// whatever surrounds it.
pub proof fn lemma_round_trip(s: ShapeView, d: Datum, b: Seq<u8>, pos: nat)
    requires
        conforms(d, s),
        pos + enc(d, pos).len() <= b.len(),
        b.subrange(pos as int, (pos + enc(d, pos).len()) as int) == enc(d, pos),
    ensures
        dec(s, b, pos) == Some((d, pos + enc(d, pos).len())),
    decreases d, 0nat,
{
    match d {
        Datum::Prim(k, bits) => {
            lemma_prim_round_trip(k, bits as nat, b, pos);
        },
        Datum::Text(cs) => {
            lemma_text_round_trip(cs, b, pos);
        },
        Datum::Array(ds) => {
            if let ShapeView::Array(n, e) = s {
                lemma_elems_round_trip(*e, ds, b, pos);
            }
        },
        Datum::Sequence(ds) => {
            if let ShapeView::Sequence(e) = s {
                let c = enc_count(ds.len(), pos);
                lemma_split(b, pos as int, c, enc_list(ds, pos + c.len()));
                lemma_prim_round_trip(Prim::UInt32, ds.len(), b, pos);
                lemma_elems_round_trip(*e, ds, b, pos + c.len());
            }
        },
        Datum::Record(ds) => {
            if let ShapeView::Record(fs) = s {
                lemma_fields_round_trip(fs, ds, b, pos);
            }
        },
    }
}

/// Elements of one shape read back as written.
pub proof fn lemma_elems_round_trip(e: ShapeView, ds: Seq<Datum>, b: Seq<u8>, pos: nat)
    requires
        forall|i: int| 0 <= i < ds.len() ==> conforms(#[trigger] ds[i], e),
        pos + enc_list(ds, pos).len() <= b.len(),
        b.subrange(pos as int, (pos + enc_list(ds, pos).len()) as int) == enc_list(ds, pos),
    ensures
        dec_elems(e, ds.len(), b, pos) == Some((ds, pos + enc_list(ds, pos).len())),
    decreases ds, 1nat,
{
    if ds.len() > 0 {
        let t = ds.drop_last();
        let a = enc_list(t, pos);
        let x = enc(ds.last(), pos + a.len());
        lemma_split(b, pos as int, a, x);
        assert forall|i: int| 0 <= i < t.len() implies conforms(#[trigger] t[i], e) by {
            assert(t[i] == ds[i]);
        }
        lemma_elems_round_trip(e, t, b, pos);
        assert(conforms(ds[ds.len() - 1], e));
        lemma_round_trip(e, ds.last(), b, pos + a.len());
        assert(t.push(ds.last()) =~= ds);
        assert((ds.len() - 1) as nat == t.len());
    }
}

/// Fields of the given shapes read back as written.
pub proof fn lemma_fields_round_trip(fs: Seq<ShapeView>, ds: Seq<Datum>, b: Seq<u8>, pos: nat)
    requires
        ds.len() == fs.len(),
        forall|i: int| 0 <= i < ds.len() ==> conforms(#[trigger] ds[i], fs[i]),
        pos + enc_list(ds, pos).len() <= b.len(),
        b.subrange(pos as int, (pos + enc_list(ds, pos).len()) as int) == enc_list(ds, pos),
    ensures
        dec_fields(fs, b, pos) == Some((ds, pos + enc_list(ds, pos).len())),
    decreases ds, 1nat,
{
    if ds.len() > 0 {
        let t = ds.drop_last();
        let a = enc_list(t, pos);
        let x = enc(ds.last(), pos + a.len());
        lemma_split(b, pos as int, a, x);
        assert forall|i: int| 0 <= i < t.len() implies conforms(
            #[trigger] t[i],
            fs.drop_last()[i],
        ) by {
            assert(t[i] == ds[i]);
        }
        lemma_fields_round_trip(fs.drop_last(), t, b, pos);
        assert(conforms(ds[ds.len() - 1], fs[fs.len() - 1]));
        lemma_round_trip(fs.last(), ds.last(), b, pos + a.len());
        assert(t.push(ds.last()) =~= ds);
    }
}


/// Whether the datum can be written: its primitives hold values of their
/// types and its counts fit in 32 bits.
pub open spec fn fits(d: Datum) -> bool
    decreases d,
{
    match d {
        Datum::Prim(k, b) => k.holds(b as nat),
        Datum::Text(cs) => encode_utf8(cs).len() + 1 < pow256(4),
        Datum::Array(ds) => forall|i: int| 0 <= i < ds.len() ==> fits(#[trigger] ds[i]),
        Datum::Sequence(ds) => ds.len() < pow256(4) && forall|i: int|
            0 <= i < ds.len() ==> fits(#[trigger] ds[i]),
        Datum::Record(ds) => forall|i: int| 0 <= i < ds.len() ==> fits(#[trigger] ds[i]),
    }
}

/// A datum of some shape can be written.
pub proof fn lemma_conforms_fits(d: Datum, s: ShapeView)
    requires
        conforms(d, s),
    ensures
        fits(d),
    decreases d,
{
    match d {
        Datum::Array(ds) => {
            if let ShapeView::Array(n, e) = s {
                assert forall|i: int| 0 <= i < ds.len() implies fits(#[trigger] ds[i]) by {
                    lemma_conforms_fits(ds[i], *e);
                }
            }
        },
        Datum::Sequence(ds) => {
            if let ShapeView::Sequence(e) = s {
                assert forall|i: int| 0 <= i < ds.len() implies fits(#[trigger] ds[i]) by {
                    lemma_conforms_fits(ds[i], *e);
                }
            }
        },
        Datum::Record(ds) => {
            if let ShapeView::Record(fs) = s {
                assert forall|i: int| 0 <= i < ds.len() implies fits(#[trigger] ds[i]) by {
                    lemma_conforms_fits(ds[i], fs[i]);
                }
            }
        },
        _ => {},
    }
}

/// A list datum can be written exactly when its parts can (and, for a
/// sequence, its count fits).
pub proof fn lemma_fits_parts(d: Datum)
    ensures
        d matches Datum::Array(ds) ==> (fits(d) <==> forall|i: int|
            0 <= i < ds.len() ==> fits(#[trigger] ds[i])),
        d matches Datum::Sequence(ds) ==> (fits(d) <==> ds.len() < pow256(4) && forall|i: int|
            0 <= i < ds.len() ==> fits(#[trigger] ds[i])),
        d matches Datum::Record(ds) ==> (fits(d) <==> forall|i: int|
            0 <= i < ds.len() ==> fits(#[trigger] ds[i])),
{
    match d {
        Datum::Array(ds) => {
            assert forall|i: int| 0 <= i < ds.len() implies decreases_to!(d => #[trigger] ds[i]) by {
                assert(decreases_to!(d => d->Array_0));
                assert(decreases_to!(ds => ds[i]));
            }
        },
        Datum::Sequence(ds) => {
            assert forall|i: int| 0 <= i < ds.len() implies decreases_to!(d => #[trigger] ds[i]) by {
                assert(decreases_to!(d => d->Sequence_0));
                assert(decreases_to!(ds => ds[i]));
            }
        },
        Datum::Record(ds) => {
            assert forall|i: int| 0 <= i < ds.len() implies decreases_to!(d => #[trigger] ds[i]) by {
                assert(decreases_to!(d => d->Record_0));
                assert(decreases_to!(ds => ds[i]));
            }
        },
        _ => {},
    }
}

pub proof fn lemma_view_shapes(ss: Seq<Shape>)
    ensures
        view_shapes(ss).len() == ss.len(),
        forall|i: int| 0 <= i < ss.len() ==> #[trigger] view_shapes(ss)[i] == ss[i]@,
    decreases ss.len(),
{
    if ss.len() > 0 {
        lemma_view_shapes(ss.drop_last());
    }
}

pub proof fn lemma_view_values(vs: Seq<Value>)
    ensures
        view_values(vs).len() == vs.len(),
        forall|i: int| 0 <= i < vs.len() ==> #[trigger] view_values(vs)[i] == vs[i]@,
    decreases vs.len(),
{
    if vs.len() > 0 {
        lemma_view_values(vs.drop_last());
    }
}

/// Appends a primitive of type `k` with the given bits.
fn write_prim(k: Prim, bits: u64, out: &mut Vec<u8>)
    requires
        k.holds(bits as nat),
    ensures
        final(out)@ == old(out)@ + enc_prim(k, bits as nat, old(out)@.len()),
{
    let ghost target = old(out)@ + enc_prim(k, bits as nat, old(out)@.len());
    let ghost p = pad(old(out)@.len(), k.width_spec());
    let w = k.width();
    let rem = out.len() % w;
    let n = if rem == 0 {
        0
    } else {
        w - rem
    };
    let mut j: usize = 0;
    while j < n
        invariant
            j <= n == p,
            w == k.width_spec(),
            out@ == old(out)@ + zeros(j as nat),
        decreases n - j,
    {
        out.push(0);
        assert(zeros((j + 1) as nat) =~= zeros(j as nat).push(0));
        j = j + 1;
    }
    let mut v: u64 = bits;
    let mut i: usize = 0;
    while i < w
        invariant
            i <= w == k.width_spec(),
            out@ + le_bytes(v as nat, (w - i) as nat) == target,
        decreases w - i,
    {
        let ghost before = out@;
        let ghost rest = le_bytes((v / 256) as nat, (w - i - 1) as nat);
        assert(le_bytes(v as nat, (w - i) as nat) == seq![(v % 256) as u8] + rest);
        out.push((v % 256) as u8);
        assert(out@ + rest =~= before + (seq![(v % 256) as u8] + rest));
        v = v / 256;
        i = i + 1;
    }
    assert(out@ + le_bytes(v as nat, 0) =~= out@);
}

/// Appends text.
fn write_text(s: &String, out: &mut Vec<u8>)
    requires
        encode_utf8(s@).len() + 1 < pow256(4),
    ensures
        final(out)@ == old(out)@ + enc_text(s@, old(out)@.len()),
{
    let b = s.as_str().as_bytes();
    proof {
        lemma_pow256_8();
    }
    write_prim(Prim::UInt32, b.len() as u64 + 1, out);
    let ghost mid = out@;
    let mut i: usize = 0;
    while i < b.len()
        invariant
            i <= b@.len(),
            b@ == encode_utf8(s@),
            out@ == mid + b@.subrange(0, i as int),
        decreases b@.len() - i,
    {
        out.push(b[i]);
        assert(b@.subrange(0, i + 1) =~= b@.subrange(0, i as int).push(b@[i as int]));
        i = i + 1;
    }
    out.push(0);
    assert(b@.subrange(0, b@.len() as int) =~= b@);
    assert(out@ =~= old(out)@ + enc_text(s@, old(out)@.len()));
}

/// Appends the wire form of `v` to `out`.
pub fn encode_into(v: &Value, out: &mut Vec<u8>)
    requires
        fits(v@),
    ensures
        final(out)@ == old(out)@ + enc(v@, old(out)@.len()),
    decreases v,
{
    match v {
        Value::Prim(k, bits) => write_prim(*k, *bits, out),
        Value::Text(s) => write_text(s, out),
        Value::Array(vs) => {
            proof {
                assert(v@ == Datum::Array(view_values(vs@)));
                lemma_fits_parts(v@);
            }
            encode_list(vs, out);
        },
        Value::Record(vs) => {
            proof {
                assert(v@ == Datum::Record(view_values(vs@)));
                lemma_fits_parts(v@);
            }
            encode_list(vs, out);
        },
        Value::Sequence(vs) => {
            proof {
                lemma_view_values(vs@);
                lemma_pow256_8();
                lemma_fits_parts(v@);
            }
            write_prim(Prim::UInt32, vs.len() as u64, out);
            let ghost mid = out@;
            encode_list(vs, out);
            assert(out@ =~= old(out)@ + enc(v@, old(out)@.len()));
        },
    }
}

/// Appends the wire forms of `vs`, one after the other.
fn encode_list(vs: &Vec<Value>, out: &mut Vec<u8>)
    requires
        forall|i: int| 0 <= i < view_values(vs@).len() ==> fits(#[trigger] view_values(vs@)[i]),
    ensures
        final(out)@ == old(out)@ + enc_list(view_values(vs@), old(out)@.len()),
    decreases vs,
{
    proof {
        lemma_view_values(vs@);
    }
    let ghost base = old(out)@;
    let mut i: usize = 0;
    while i < vs.len()
        invariant
            i <= vs@.len(),
            view_values(vs@).len() == vs@.len(),
            forall|j: int| 0 <= j < vs@.len() ==> #[trigger] view_values(vs@)[j] == vs@[j]@,
            forall|j: int| 0 <= j < view_values(vs@).len() ==> fits(#[trigger] view_values(vs@)[j]),
            out@ == base + enc_list(view_values(vs@.subrange(0, i as int)), base.len()),
        decreases vs@.len() - i,
    {
        let ghost t = vs@.subrange(0, i + 1);
        assert(t.drop_last() =~= vs@.subrange(0, i as int));
        assert(fits(view_values(vs@)[i as int]));
        let ghost before = out@;
        encode_into(&vs[i], out);
        proof {
            let a = enc_list(view_values(vs@.subrange(0, i as int)), base.len());
            assert(view_values(t) == view_values(vs@.subrange(0, i as int)).push(vs@[i as int]@));
            assert(view_values(t).drop_last() =~= view_values(vs@.subrange(0, i as int)));
            assert(out@ =~= base + enc_list(view_values(t), base.len()));
        }
        i = i + 1;
    }
    assert(vs@.subrange(0, vs@.len() as int) =~= vs@);
}


/// Relies on `String::from_utf8`: it succeeds exactly on valid UTF-8, and the
/// string then holds the characters that the bytes encode.
#[verifier::external_body]
fn string_from_utf8(bytes: Vec<u8>) -> (r: Option<String>)
    ensures
        r is Some <==> valid_utf8(bytes@),
        r matches Some(s) ==> s@ == decode_utf8(bytes@),
{
    String::from_utf8(bytes).ok()
}

/// Reads a primitive of type `k` at `pos`.
fn read_prim(k: Prim, b: &[u8], pos: usize) -> (r: Option<(u64, usize)>)
    requires
        pos <= b@.len(),
    ensures
        match dec_prim(k, b@, pos as nat) {
            Some((v, p)) => r matches Some((x, q)) && x == v && q == p && p <= b@.len(),
            None => r is None,
        },
{
    let w = k.width();
    let rem = pos % w;
    let n = if rem == 0 {
        0
    } else {
        w - rem
    };
    let avail = b.len() - pos;
    if n > avail || w > avail - n {
        return None;
    }
    let start = pos + n;
    let bits = read_unsigned(b, start, w, false);
    proof {
        let sub = b@.subrange(start as int, start + w);
        lemma_le_value_bound(sub);
        lemma_pow256_8();
        lemma_pow256_mono(w as nat, 8);
        assert(le_value(sub) < 0x1_0000_0000_0000_0000);
        assert((le_value(sub) as u64) == bits);
    }
    if k == Prim::Bool && bits > 1 {
        None
    } else {
        Some((bits, start + w))
    }
}

/// Reads text at `pos`.
fn read_text(b: &[u8], pos: usize) -> (r: Option<(String, usize)>)
    requires
        pos <= b@.len(),
    ensures
        match dec_text(b@, pos as nat) {
            Some((cs, p)) => r matches Some((s, q)) && s@ == cs && q == p && p <= b@.len(),
            None => r is None,
        },
{
    let (n, p) = match read_prim(Prim::UInt32, b, pos) {
        None => return None,
        Some(x) => x,
    };
    proof {
        lemma_pow256_8();
    }
    let ghost gn = n;
    assert(n < 0x1_0000_0000) by {
        let sub = b@.subrange((p - 4) as int, p as int);
        lemma_le_value_bound(sub);
    }
    let n = n as usize;
    if n == 0 || n > b.len() - p {
        return None;
    }
    if b[p + n - 1] != 0 {
        return None;
    }
    let blen = b.len();
    let mut payload: Vec<u8> = Vec::new();
    let mut i: usize = 0;
    while i < n - 1
        invariant
            i <= n - 1,
            blen == b@.len(),
            p + n <= blen,
            payload@ == b@.subrange(p as int, p + i),
        decreases n - 1 - i,
    {
        payload.push(b[p + i]);
        assert(b@.subrange(p as int, p + i + 1) =~= b@.subrange(p as int, p + i).push(b@[p + i]));
        i = i + 1;
    }
    match string_from_utf8(payload) {
        None => None,
        Some(s) => Some((s, p + n)),
    }
}

/// Reads a value of shape `s` at `pos`: the value and the offset after it,
/// exactly when the bytes there hold one.
pub fn decode_at(s: &Shape, b: &[u8], pos: usize) -> (r: Option<(Value, usize)>)
    requires
        pos <= b@.len(),
    ensures
        match dec(s@, b@, pos as nat) {
            Some((d, p)) => r matches Some((v, q)) && v@ == d && q == p && p <= b@.len(),
            None => r is None,
        },
    decreases s, 0nat,
{
    match s {
        Shape::Prim(k) => match read_prim(*k, b, pos) {
            None => None,
            Some((bits, q)) => Some((Value::Prim(*k, bits), q)),
        },
        Shape::Text => match read_text(b, pos) {
            None => None,
            Some((t, q)) => Some((Value::Text(t), q)),
        },
        Shape::Array(n, e) => match decode_elems(e, *n, b, pos) {
            None => None,
            Some((vs, q)) => Some((Value::Array(vs), q)),
        },
        Shape::Sequence(e) => match read_prim(Prim::UInt32, b, pos) {
            None => None,
            Some((n, p0)) => {
                proof {
                    lemma_pow256_8();
                    let sub = b@.subrange((p0 - 4) as int, p0 as int);
                    lemma_le_value_bound(sub);
                }
                match decode_elems(e, n as usize, b, p0) {
                    None => None,
                    Some((vs, q)) => Some((Value::Sequence(vs), q)),
                }
            },
        },
        Shape::Record(fs) => match decode_fields(fs, b, pos) {
            None => None,
            Some((vs, q)) => Some((Value::Record(vs), q)),
        },
    }
}

/// Once reading elements fails, reading more of them fails too.
proof fn lemma_dec_elems_fails(e: ShapeView, i: nat, n: nat, b: Seq<u8>, pos: nat)
    requires
        i <= n,
        dec_elems(e, i, b, pos) is None,
    ensures
        dec_elems(e, n, b, pos) is None,
    decreases n,
{
    if i < n {
        lemma_dec_elems_fails(e, i, (n - 1) as nat, b, pos);
    }
}

/// Once reading fields fails, reading more of them fails too.
proof fn lemma_dec_fields_fails(fs: Seq<ShapeView>, i: int, b: Seq<u8>, pos: nat)
    requires
        0 <= i <= fs.len(),
        dec_fields(fs.subrange(0, i), b, pos) is None,
    ensures
        dec_fields(fs, b, pos) is None,
    decreases fs.len(),
{
    if i < fs.len() {
        assert(fs.drop_last().subrange(0, i) =~= fs.subrange(0, i));
        lemma_dec_fields_fails(fs.drop_last(), i, b, pos);
    } else {
        assert(fs.subrange(0, i) =~= fs);
    }
}

/// Reads `n` values of shape `e`, one after the other.
fn decode_elems(e: &Shape, n: usize, b: &[u8], pos: usize) -> (r: Option<(Vec<Value>, usize)>)
    requires
        pos <= b@.len(),
    ensures
        match dec_elems(e@, n as nat, b@, pos as nat) {
            Some((ds, p)) => r matches Some((vs, q)) && view_values(vs@) == ds && q == p && p
                <= b@.len(),
            None => r is None,
        },
    decreases e, 1nat,
{
    let mut vs: Vec<Value> = Vec::new();
    let mut p = pos;
    let mut i: usize = 0;
    while i < n
        invariant
            i <= n,
            p <= b@.len(),
            dec_elems(e@, i as nat, b@, pos as nat) == Some((view_values(vs@), p as nat)),
        decreases n - i,
    {
        match decode_at(e, b, p) {
            None => {
                proof {
                    lemma_dec_elems_fails(e@, (i + 1) as nat, n as nat, b@, pos as nat);
                }
                return None;
            },
            Some((v, q)) => {
                let ghost before = vs@;
                vs.push(v);
                assert(vs@.drop_last() =~= before);
                p = q;
            },
        }
        i = i + 1;
    }
    Some((vs, p))
}

/// Reads one value of each shape in `fs`, one after the other.
fn decode_fields(fs: &Vec<Shape>, b: &[u8], pos: usize) -> (r: Option<(Vec<Value>, usize)>)
    requires
        pos <= b@.len(),
    ensures
        match dec_fields(view_shapes(fs@), b@, pos as nat) {
            Some((ds, p)) => r matches Some((vs, q)) && view_values(vs@) == ds && q == p && p
                <= b@.len(),
            None => r is None,
        },
    decreases fs, 1nat,
{
    let ghost sv = view_shapes(fs@);
    proof {
        lemma_view_shapes(fs@);
    }
    let mut vs: Vec<Value> = Vec::new();
    let mut p = pos;
    let mut i: usize = 0;
    while i < fs.len()
        invariant
            i <= fs@.len(),
            p <= b@.len(),
            sv == view_shapes(fs@),
            sv.len() == fs@.len(),
            forall|j: int| 0 <= j < fs@.len() ==> #[trigger] sv[j] == fs@[j]@,
            dec_fields(sv.subrange(0, i as int), b@, pos as nat) == Some(
                (view_values(vs@), p as nat),
            ),
        decreases fs@.len() - i,
    {
        let ghost t = sv.subrange(0, i + 1);
        assert(t.drop_last() =~= sv.subrange(0, i as int));
        assert(t.last() == fs@[i as int]@);
        match decode_at(&fs[i], b, p) {
            None => {
                proof {
                    lemma_dec_fields_fails(sv, i + 1, b@, pos as nat);
                }
                return None;
            },
            Some((v, q)) => {
                let ghost before = vs@;
                vs.push(v);
                assert(vs@.drop_last() =~= before);
                p = q;
            },
        }
        i = i + 1;
    }
    assert(sv.subrange(0, sv.len() as int) =~= sv);
    Some((vs, p))
}


/// Whatever is read from bytes is a value of the shape it was read as.
pub proof fn lemma_dec_conforms(s: ShapeView, b: Seq<u8>, pos: nat)
    ensures
        dec(s, b, pos) matches Some((d, p)) ==> conforms(d, s),
    decreases s, 0nat, 0nat,
{
    lemma_pow256_8();
    match s {
        ShapeView::Prim(k) => {
            let w = k.width_spec();
            let start = pos + pad(pos, w);
            if start + w <= b.len() {
                let sub = b.subrange(start as int, (start + w) as int);
                lemma_le_value_bound(sub);
                lemma_pow256_mono(w, 8);
            }
        },
        ShapeView::Text => {
            if let Some((n, p)) = dec_prim(Prim::UInt32, b, pos) {
                if !(n == 0 || p + n > b.len()) {
                    let payload = b.subrange(p as int, p + n - 1);
                    if valid_utf8(payload) {
                        decode_utf8_encode_utf8(payload);
                        let sub = b.subrange((p - 4) as int, p as int);
                        lemma_le_value_bound(sub);
                    }
                }
            }
        },
        ShapeView::Array(n, e) => {
            lemma_dec_elems_conforms(*e, n, b, pos);
        },
        ShapeView::Sequence(e) => {
            if let Some((n, p0)) = dec_prim(Prim::UInt32, b, pos) {
                let sub = b.subrange((p0 - 4) as int, p0 as int);
                lemma_le_value_bound(sub);
                lemma_dec_elems_conforms(*e, n as nat, b, p0);
            }
        },
        ShapeView::Record(fs) => {
            lemma_dec_fields_conforms(fs, b, pos);
        },
    }
}

pub proof fn lemma_dec_elems_conforms(e: ShapeView, n: nat, b: Seq<u8>, pos: nat)
    ensures
        dec_elems(e, n, b, pos) matches Some((ds, p)) ==> ds.len() == n && forall|i: int|
            0 <= i < ds.len() ==> conforms(#[trigger] ds[i], e),
    decreases e, 1nat, n,
{
    if n > 0 {
        lemma_dec_elems_conforms(e, (n - 1) as nat, b, pos);
        if let Some((ds, p)) = dec_elems(e, (n - 1) as nat, b, pos) {
            lemma_dec_conforms(e, b, p);
        }
    }
}

pub proof fn lemma_dec_fields_conforms(fs: Seq<ShapeView>, b: Seq<u8>, pos: nat)
    ensures
        dec_fields(fs, b, pos) matches Some((ds, p)) ==> ds.len() == fs.len() && forall|i: int|
            0 <= i < ds.len() ==> conforms(#[trigger] ds[i], fs[i]),
    decreases fs, 0nat, 0nat,
{
    if fs.len() > 0 {
        lemma_dec_fields_conforms(fs.drop_last(), b, pos);
        if let Some((ds, p)) = dec_fields(fs.drop_last(), b, pos) {
            lemma_dec_conforms(fs.last(), b, p);
        }
    }
}

/// Whether `v` can be written.
pub fn check_fits(v: &Value) -> (r: bool)
    ensures
        r == fits(v@),
    decreases v,
{
    proof {
        lemma_pow256_8();
    }
    match v {
        Value::Prim(k, bits) => {
            assert(v@ == Datum::Prim(*k, *bits));
            if *k == Prim::Bool {
                assert(fits(v@) == (*bits <= 1));
                *bits <= 1
            } else {
                let w = k.width();
                assert(fits(v@) == (*bits < pow256(w as nat)));
                let r = if w == 1 {
                    *bits < 0x100
                } else if w == 2 {
                    *bits < 0x1_0000
                } else if w == 4 {
                    *bits < 0x1_0000_0000
                } else {
                    assert(w == 8);
                    assert(*bits < pow256(8));
                    true
                };
                assert(r == fits(v@));
                r
            }
        },
        Value::Text(t) => {
            assert(v@ == Datum::Text(t@));
            let r = t.as_str().as_bytes().len() < 0xffff_ffff;
            assert(r == fits(v@));
            r
        },
        Value::Array(vs) => {
            proof {
                assert(v@ == Datum::Array(view_values(vs@)));
                lemma_fits_parts(v@);
            }
            let r = check_all_fit(vs);
            assert(r == fits(v@));
            r
        },
        Value::Record(vs) => {
            proof {
                assert(v@ == Datum::Record(view_values(vs@)));
                lemma_fits_parts(v@);
            }
            let r = check_all_fit(vs);
            assert(r == fits(v@));
            r
        },
        Value::Sequence(vs) => {
            proof {
                assert(v@ == Datum::Sequence(view_values(vs@)));
                lemma_view_values(vs@);
                lemma_fits_parts(v@);
            }
            let r = (vs.len() as u64) < 0x1_0000_0000 && check_all_fit(vs);
            assert(r == fits(v@));
            r
        },
    }
}

fn check_all_fit(vs: &Vec<Value>) -> (r: bool)
    ensures
        r == forall|i: int| 0 <= i < view_values(vs@).len() ==> fits(#[trigger] view_values(vs@)[i]),
    decreases vs,
{
    proof {
        lemma_view_values(vs@);
    }
    let mut i: usize = 0;
    while i < vs.len()
        invariant
            i <= vs@.len(),
            view_values(vs@).len() == vs@.len(),
            forall|j: int| 0 <= j < vs@.len() ==> #[trigger] view_values(vs@)[j] == vs@[j]@,
            forall|j: int| 0 <= j < i ==> fits(#[trigger] view_values(vs@)[j]),
        decreases vs@.len() - i,
    {
        if !check_fits(&vs[i]) {
            assert(!fits(view_values(vs@)[i as int]));
            return false;
        }
        i = i + 1;
    }
    true
}

/// The wire form of `v`, written from the start of a buffer.
pub fn encode(v: &Value) -> (r: Vec<u8>)
    requires
        fits(v@),
    ensures
        r@ == enc(v@, 0),
{
    let mut out: Vec<u8> = Vec::new();
    encode_into(v, &mut out);
    assert(out@ =~= enc(v@, 0));
    out
}

/// The value of shape `s` at the start of `b`, if the bytes hold one; bytes
/// after it are ignored.
pub fn decode(s: &Shape, b: &[u8]) -> (r: Option<Value>)
    ensures
        match dec(s@, b@, 0) {
            Some((d, _)) => r matches Some(v) && v@ == d,
            None => r is None,
        },
{
    match decode_at(s, b, 0) {
        Some((v, _)) => Some(v),
        None => None,
    }
}

/// Decoding what was encoded gives back the value, for every shape and every
/// value of it.
pub proof fn lemma_decode_encode(s: ShapeView, d: Datum)
    requires
        conforms(d, s),
    ensures
        dec(s, enc(d, 0), 0) == Some((d, enc(d, 0).len())),
{
    let b = enc(d, 0);
    assert(b.subrange(0, b.len() as int) =~= b);
    lemma_round_trip(s, d, b, 0);
}

/// Whether every primitive in `s` has width `w`, and `s` holds no text and no
/// sequence.
pub open spec fn uniform(s: ShapeView, w: nat) -> bool
    decreases s,
{
    match s {
        ShapeView::Prim(k) => k.width_spec() == w,
        ShapeView::Text => false,
        ShapeView::Array(n, e) => uniform(*e, w),
        ShapeView::Sequence(e) => false,
        ShapeView::Record(fs) => forall|i: int| 0 <= i < fs.len() ==> uniform(#[trigger] fs[i], w),
    }
}

/// A value whose primitives all have one width `w`, written at an offset
/// aligned to `w`, takes a multiple of `w` bytes and ends aligned to `w`.
pub proof fn lemma_uniform_alignment(s: ShapeView, d: Datum, w: nat, pos: nat)
    requires
        conforms(d, s),
        uniform(s, w),
        w > 0,
        pos % w == 0,
    ensures
        enc(d, pos).len() % w == 0,
        (pos + enc(d, pos).len()) % w == 0,
    decreases d, 0nat,
{
    match d {
        Datum::Prim(k, bits) => {
            lemma_le_bytes_len(bits as nat, w);
            assert(pad(pos, w) == 0);
            vstd::arithmetic::div_mod::lemma_mod_self_0(w as int);
            assert(enc(d, pos).len() == w);
            assert((pos + w) % w == 0) by {
                vstd::arithmetic::div_mod::lemma_mod_adds(pos as int, w as int, w as int);
            }
        },
        Datum::Array(ds) => {
            if let ShapeView::Array(n, e) = s {
                let ts = Seq::new(ds.len(), |i: int| *e);
                assert forall|i: int| 0 <= i < ds.len() implies conforms(#[trigger] ds[i], ts[i])
                    && uniform(ts[i], w) by {
                    assert(decreases_to!(d => d->Array_0));
                    assert(decreases_to!(ds => ds[i]));
                    assert(decreases_to!(s => s->Array_1));
                }
                lemma_uniform_list(ds, ts, w, pos);
            }
        },
        Datum::Record(ds) => {
            if let ShapeView::Record(fs) = s {
                assert forall|i: int| 0 <= i < ds.len() implies conforms(#[trigger] ds[i], fs[i])
                    && uniform(fs[i], w) by {
                    assert(decreases_to!(d => d->Record_0));
                    assert(decreases_to!(ds => ds[i]));
                    assert(decreases_to!(s => s->Record_0));
                    assert(decreases_to!(fs => fs[i]));
                }
                lemma_uniform_list(ds, fs, w, pos);
            }
        },
        _ => {},
    }
}

proof fn lemma_uniform_list(ds: Seq<Datum>, ts: Seq<ShapeView>, w: nat, pos: nat)
    requires
        w > 0,
        pos % w == 0,
        ds.len() == ts.len(),
        forall|i: int| 0 <= i < ds.len() ==> conforms(#[trigger] ds[i], ts[i]) && uniform(ts[i], w),
    ensures
        enc_list(ds, pos).len() % w == 0,
        (pos + enc_list(ds, pos).len()) % w == 0,
    decreases ds, 1nat,
{
    if ds.len() == 0 {
        vstd::arithmetic::div_mod::lemma_mod_self_0(w as int);
        assert(0nat % w == 0) by (nonlinear_arith)
            requires
                w > 0,
        ;
    } else {
        let k = ds.len() - 1;
        lemma_uniform_list(ds.drop_last(), ts.drop_last(), w, pos);
        let a = enc_list(ds.drop_last(), pos);
        assert(conforms(ds[k], ts[k]) && uniform(ts[k], w));
        lemma_uniform_alignment(ts[k], ds.last(), w, pos + a.len());
        let x = enc(ds.last(), pos + a.len());
        assert(enc_list(ds, pos) == a + x);
        assert(a.len() % w == 0);
        assert(x.len() % w == 0);
        vstd::arithmetic::div_mod::lemma_mod_adds(a.len() as int, x.len() as int, w as int);
        vstd::arithmetic::div_mod::lemma_mod_adds(pos as int, (a.len() + x.len()) as int, w as int);
    }
}


/// An empty sequence written at an offset aligned to four bytes is exactly a
/// zero count of four bytes; an array is its elements alone, with no count;
/// and a sequence reads back with its elements, in order.
pub proof fn lemma_sequence_laws(e: ShapeView, ds: Seq<Datum>, pos: nat)
    requires
        pos % 4 == 0,
    ensures
        enc(Datum::Sequence(seq![]), pos) == seq![0u8, 0u8, 0u8, 0u8],
        enc(Datum::Array(ds), pos) == enc_list(ds, pos),
        ds.len() < pow256(4) && (forall|i: int| 0 <= i < ds.len() ==> conforms(#[trigger] ds[i], e))
            ==> dec(ShapeView::Sequence(Box::new(e)), enc(Datum::Sequence(ds), 0), 0) == Some(
            (Datum::Sequence(ds), enc(Datum::Sequence(ds), 0).len()),
        ),
{
    lemma_pow256_8();
    reveal_with_fuel(le_bytes, 5);
    assert(pad(pos, 4) == 0);
    assert(zeros(0) =~= seq![]);
    assert(enc_list(seq![], pos + 4) =~= seq![]);
    assert(enc(Datum::Sequence(seq![]), pos) =~= seq![0u8, 0u8, 0u8, 0u8]);
    let d = Datum::Sequence(ds);
    let s = ShapeView::Sequence(Box::new(e));
    if ds.len() < pow256(4) && (forall|i: int| 0 <= i < ds.len() ==> conforms(#[trigger] ds[i], e)) {
        assert(conforms(d, s));
        lemma_decode_encode(s, d);
    }
}


/// A list datum has a list shape exactly when its parts have the parts of
/// that shape.
pub proof fn lemma_conforms_parts(d: Datum, s: ShapeView)
    ensures
        d matches Datum::Record(ds) ==> (s matches ShapeView::Record(fs) ==> (conforms(d, s) <==> (
        ds.len() == fs.len() && forall|i: int| 0 <= i < ds.len() ==> conforms(#[trigger] ds[i], fs[i])))),
        d matches Datum::Sequence(ds) ==> (s matches ShapeView::Sequence(e) ==> (conforms(d, s) <==> (
        ds.len() < pow256(4) && forall|i: int| 0 <= i < ds.len() ==> conforms(#[trigger] ds[i], *e)))),
        d matches Datum::Array(ds) ==> (s matches ShapeView::Array(n, e) ==> (conforms(d, s) <==> (
        ds.len() == n && forall|i: int| 0 <= i < ds.len() ==> conforms(#[trigger] ds[i], *e)))),
{
    match d {
        Datum::Array(ds) => {
            assert forall|i: int| 0 <= i < ds.len() implies decreases_to!(d => #[trigger] ds[i]) by {
                assert(decreases_to!(d => d->Array_0));
                assert(decreases_to!(ds => ds[i]));
            }
        },
        Datum::Sequence(ds) => {
            assert forall|i: int| 0 <= i < ds.len() implies decreases_to!(d => #[trigger] ds[i]) by {
                assert(decreases_to!(d => d->Sequence_0));
                assert(decreases_to!(ds => ds[i]));
            }
        },
        Datum::Record(ds) => {
            assert forall|i: int| 0 <= i < ds.len() implies decreases_to!(d => #[trigger] ds[i]) by {
                assert(decreases_to!(d => d->Record_0));
                assert(decreases_to!(ds => ds[i]));
            }
        },
        _ => {},
    }
}

/// The views of values that view as the given data.
pub proof fn lemma_view_values_ext(vs: Seq<Value>, ds: Seq<Datum>)
    requires
        vs.len() == ds.len(),
        forall|i: int| 0 <= i < vs.len() ==> #[trigger] vs[i]@ == ds[i],
    ensures
        view_values(vs) == ds,
{
    lemma_view_values(vs);
    assert(view_values(vs) =~= ds);
}

/// The views of shapes that view as the given shape views.
pub proof fn lemma_view_shapes_ext(ss: Seq<Shape>, vs: Seq<ShapeView>)
    requires
        ss.len() == vs.len(),
        forall|i: int| 0 <= i < ss.len() ==> #[trigger] ss[i]@ == vs[i],
    ensures
        view_shapes(ss) == vs,
{
    lemma_view_shapes(ss);
    assert(view_shapes(ss) =~= vs);
}

} // verus!
