//! Standard message headers.

use vstd::prelude::*;
use crate::schema_registry::SchemaType;
use crate::builtin_interfaces::Time;
use crate::text::str_eq;
use crate::serde_cdr::{parts_of, stamp_datum, stamp_shape, text_of, Message};
use crate::wire::{
    conforms, fits, lemma_conforms_parts, lemma_fits_parts, lemma_view_shapes_ext,
    lemma_view_values_ext, view_values, Datum, Shape, ShapeView, Value,
};

verus! {

/// The stamp and coordinate frame that most messages carry.
#[derive(Clone, Debug, PartialEq)]
pub struct Header {
    pub stamp: Time,
    pub frame_id: String,
}



impl Message for Header {
    open spec fn shape_view() -> ShapeView {
        ShapeView::Record(seq![stamp_shape(), ShapeView::Text])
    }

    open spec fn datum(&self) -> Datum {
        Datum::Record(seq![stamp_datum(self.stamp.sec, self.stamp.nanosec), Datum::Text(self.frame_id@)])
    }

    fn shape() -> (s: Shape) {
        let fs = vec![Time::shape(), Shape::Text];
        proof {
            lemma_view_shapes_ext(fs@, seq![stamp_shape(), ShapeView::Text]);
        }
        Shape::Record(fs)
    }

    fn to_value(&self) -> (v: Value) {
        let vs = vec![self.stamp.to_value(), Value::Text(self.frame_id.clone())];
        proof {
            lemma_view_values_ext(vs@, self.datum()->Record_0);
        }
        let v = Value::Record(vs);
        proof {
            lemma_fits_parts(v@);
            lemma_conforms_parts(v@, Self::shape_view());
            if fits(v@) {
                assert(fits(view_values(vs@)[1]));
            }
        }
        v
    }

    fn from_value(v: &Value) -> (r: Self) {
        proof {
            lemma_conforms_parts(v@, Self::shape_view());
        }
        let vs = parts_of(v);
        proof {
            assert(conforms(view_values(vs@)[0], stamp_shape()));
            assert(conforms(view_values(vs@)[1], ShapeView::Text));
        }
        let stamp = Time::from_value(&vs[0]);
        let frame_id = text_of(&vs[1]);
        let r = Header { stamp, frame_id };
        assert(r.datum()->Record_0 =~= view_values(vs@));
        r
    }
}

/// Whether `n` names a message type of this package.
pub open spec fn type_supported(n: Seq<char>) -> bool {
    n == "ColorRGBA"@
        || n == "Header"@
}

/// The schema names of this package's message types.
pub open spec fn type_list() -> Seq<Seq<char>> {
    seq![
        "std_msgs/msg/ColorRGBA"@,
        "std_msgs/msg/Header"@,
    ]
}

/// Whether `name` names a message type of this package.
pub fn is_type_supported(name: &str) -> (r: bool)
    ensures
        r == type_supported(name@),
{
    str_eq(name, "ColorRGBA") || str_eq(name, "Header")
}

/// The schema names of this package's message types.
pub fn list_types() -> (r: Vec<&'static str>)
    ensures
        r@.map_values(|s: &str| s@) == type_list(),
{
    let r = vec![
        "std_msgs/msg/ColorRGBA",
        "std_msgs/msg/Header",
    ];
    assert(r@.map_values(|s: &str| s@) =~= type_list());
    r
}

impl SchemaType for Header {
    const SCHEMA_NAME: &'static str = "std_msgs/msg/Header";

    open spec fn schema_name_spec() -> Seq<char> {
        "std_msgs/msg/Header"@
    }

    fn schema_name() -> (r: &'static str) {
        "std_msgs/msg/Header"
    }
}

} // verus!
