//! The header of a service request sent over the bus.

use vstd::prelude::*;
use crate::bytes::lemma_pow256_8;
use crate::serde_cdr::{bits_of, lemma_i64_bits, parts_of, Message};
use crate::wire::{
    conforms, lemma_conforms_parts, lemma_fits_parts, lemma_view_shapes_ext,
    lemma_view_values_ext, view_values, Datum, Prim, Shape, ShapeView, Value,
};

verus! {

/// Identifies a service request: the client and the request's sequence number.
#[derive(PartialEq, Eq, Structural, Clone, Copy, Debug)]
pub struct ServiceHeader {
    pub guid: i64,
    pub seq: u64,
}

impl Message for ServiceHeader {
    open spec fn shape_view() -> ShapeView {
        ShapeView::Record(
            seq![
                ShapeView::Prim(Prim::Int64),
                ShapeView::Prim(Prim::UInt64),
            ],
        )
    }

    open spec fn datum(&self) -> Datum {
        Datum::Record(
            seq![
                Datum::Prim(Prim::Int64, self.guid as u64),
                Datum::Prim(Prim::UInt64, self.seq),
            ],
        )
    }

    fn shape() -> (s: Shape) {
        let fs = vec![
            Shape::Prim(Prim::Int64),
            Shape::Prim(Prim::UInt64),
        ];
        proof {
            lemma_view_shapes_ext(fs@, Self::shape_view()->Record_0);
        }
        Shape::Record(fs)
    }

    fn to_value(&self) -> (v: Value) {
        let vs = vec![
            Value::Prim(Prim::Int64, self.guid as u64),
            Value::Prim(Prim::UInt64, self.seq),
        ];
        proof {
            lemma_view_values_ext(vs@, self.datum()->Record_0);
        }
        let v = Value::Record(vs);
        proof {
            lemma_pow256_8();
            lemma_fits_parts(v@);
            lemma_conforms_parts(v@, Self::shape_view());
        }
        v
    }

    fn from_value(v: &Value) -> (r: Self) {
        proof {
            lemma_conforms_parts(v@, Self::shape_view());
            lemma_pow256_8();
        }
        let vs = parts_of(v);
        proof {
            let ds = view_values(vs@);
            assert(conforms(ds[0], ShapeView::Prim(Prim::Int64)));
            assert(conforms(ds[1], ShapeView::Prim(Prim::UInt64)));
        }
        let b0 = bits_of(&vs[0]);
        proof {
            lemma_i64_bits(b0);
        }
        let r = ServiceHeader {
            guid: b0 as i64,
            seq: bits_of(&vs[1]),
        };
        assert(r.datum()->Record_0 =~= view_values(vs@));
        r
    }
}

} // verus!
