//! The simulated clock.

use vstd::prelude::*;
use crate::bytes::lemma_pow256_8;
use crate::serde_cdr::{parts_of, stamp_shape, Message};
use crate::wire::{
    conforms, lemma_conforms_parts, lemma_fits_parts, lemma_view_shapes_ext,
    lemma_view_values_ext, view_values, Datum, Shape, ShapeView, Value,
};
use crate::builtin_interfaces::Time;

verus! {

/// The current time of a simulated clock.
#[derive(PartialEq, Eq, Structural, Clone, Copy, Debug)]
pub struct Clock {
    pub clock: Time,
}

impl Message for Clock {
    open spec fn shape_view() -> ShapeView {
        ShapeView::Record(
            seq![
                stamp_shape(),
            ],
        )
    }

    open spec fn datum(&self) -> Datum {
        Datum::Record(
            seq![
                self.clock.datum(),
            ],
        )
    }

    fn shape() -> (s: Shape) {
        let fs = vec![
            Time::shape(),
        ];
        proof {
            lemma_view_shapes_ext(fs@, Self::shape_view()->Record_0);
        }
        Shape::Record(fs)
    }

    fn to_value(&self) -> (v: Value) {
        let vs = vec![
            self.clock.to_value(),
        ];
        proof {
            lemma_view_values_ext(vs@, self.datum()->Record_0);
        }
        let v = Value::Record(vs);
        proof {
            lemma_pow256_8();
            lemma_fits_parts(v@);
            lemma_conforms_parts(v@, Self::shape_view());
        }
        v
    }

    fn from_value(v: &Value) -> (r: Self) {
        proof {
            lemma_conforms_parts(v@, Self::shape_view());
            lemma_pow256_8();
        }
        let vs = parts_of(v);
        proof {
            let ds = view_values(vs@);
            assert(conforms(ds[0], stamp_shape()));
        }
        let r = Clock {
            clock: Time::from_value(&vs[0]),
        };
        assert(r.datum()->Record_0 =~= view_values(vs@));
        r
    }
}

} // verus!
