//! The message types of the `foxglove_msgs` package, by name.

use vstd::prelude::*;
use crate::bytes::lemma_pow256_8;
use crate::serde_cdr::{
    bytes_datum, bytes_from_value, bytes_shape, bytes_shape_exec, bytes_value, parts_of, text_of,
    Message,
};
use crate::wire::{
    conforms, fits, lemma_conforms_parts, lemma_fits_parts, lemma_view_shapes_ext,
    lemma_view_values_ext, view_values, Datum, Shape, ShapeView, Value,
};
use crate::text::str_eq;
use crate::schema_registry::SchemaType;
use crate::std_msgs::Header;

verus! {

/// A compressed video frame.
#[derive(Clone, Debug, PartialEq)]
pub struct FoxgloveCompressedVideo {
    pub header: Header,
    pub data: Vec<u8>,
    pub format: String,
}

/// Whether `n` names a message type of this package.
pub open spec fn type_supported(n: Seq<char>) -> bool {
    n == "CompressedVideo"@
}

/// The schema names of this package's message types.
pub open spec fn type_list() -> Seq<Seq<char>> {
    seq![
        "foxglove_msgs/msg/CompressedVideo"@,
    ]
}

/// Whether `name` names a message type of this package.
pub fn is_type_supported(name: &str) -> (r: bool)
    ensures
        r == type_supported(name@),
{
    str_eq(name, "CompressedVideo")
}

/// The schema names of this package's message types.
pub fn list_types() -> (r: Vec<&'static str>)
    ensures
        r@.map_values(|s: &str| s@) == type_list(),
{
    let r = vec![
        "foxglove_msgs/msg/CompressedVideo",
    ];
    assert(r@.map_values(|s: &str| s@) =~= type_list());
    r
}

impl SchemaType for FoxgloveCompressedVideo {
    const SCHEMA_NAME: &'static str = "foxglove_msgs/msg/CompressedVideo";

    open spec fn schema_name_spec() -> Seq<char> {
        "foxglove_msgs/msg/CompressedVideo"@
    }

    fn schema_name() -> (r: &'static str) {
        "foxglove_msgs/msg/CompressedVideo"
    }
}

impl Message for FoxgloveCompressedVideo {
    open spec fn shape_view() -> ShapeView {
        ShapeView::Record(
            seq![
                Header::shape_view(),
                bytes_shape(),
                ShapeView::Text,
            ],
        )
    }

    open spec fn datum(&self) -> Datum {
        Datum::Record(
            seq![
                self.header.datum(),
                bytes_datum(self.data@),
                Datum::Text(self.format@),
            ],
        )
    }

    fn shape() -> (s: Shape) {
        let fs = vec![
            Header::shape(),
            bytes_shape_exec(),
            Shape::Text,
        ];
        proof {
            lemma_view_shapes_ext(fs@, Self::shape_view()->Record_0);
        }
        Shape::Record(fs)
    }

    fn to_value(&self) -> (v: Value) {
        let vs = vec![
            self.header.to_value(),
            bytes_value(&self.data),
            Value::Text(self.format.clone()),
        ];
        proof {
            lemma_view_values_ext(vs@, self.datum()->Record_0);
        }
        let v = Value::Record(vs);
        proof {
            lemma_pow256_8();
            lemma_fits_parts(v@);
            lemma_conforms_parts(v@, Self::shape_view());
            if fits(v@) {
                assert(fits(view_values(vs@)[0]));
                assert(fits(view_values(vs@)[1]));
                assert(fits(view_values(vs@)[2]));
            }
        }
        v
    }

    fn from_value(v: &Value) -> (r: Self) {
        proof {
            lemma_conforms_parts(v@, Self::shape_view());
            lemma_pow256_8();
        }
        let vs = parts_of(v);
        proof {
            let ds = view_values(vs@);
            assert(conforms(ds[0], Header::shape_view()));
            assert(conforms(ds[1], bytes_shape()));
            assert(conforms(ds[2], ShapeView::Text));
        }
        let r = FoxgloveCompressedVideo {
            header: Header::from_value(&vs[0]),
            data: bytes_from_value(&vs[1]),
            format: text_of(&vs[2]),
        };
        assert(r.datum()->Record_0 =~= view_values(vs@));
        r
    }
}

} // verus!
