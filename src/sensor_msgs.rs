//! Sensor messages: images, point clouds and satellite fixes.

use vstd::prelude::*;
use crate::schema_registry::SchemaType;
use crate::std_msgs::Header;
use crate::text::str_eq;
use crate::bytes::lemma_pow256_8;
use crate::serde_cdr::{
    bits_of, bool_datum, bool_from_value, bool_value, bytes_datum, bytes_from_value, bytes_shape,
    bytes_shape_exec, bytes_value, lemma_i8_bits, parts_of, text_of, Message,
};
use crate::wire::{
    conforms, fits, lemma_conforms_parts, lemma_fits_parts, lemma_view_shapes_ext,
    lemma_view_values, lemma_view_values_ext, view_values, Datum, Prim, Shape, ShapeView, Value,
};

pub mod point_field;

verus! {

/// A compressed image in the given format.
#[derive(Clone, Debug, PartialEq)]
pub struct CompressedImage {
    pub header: Header,
    pub format: String,
    pub data: Vec<u8>,
}

/// An uncompressed image, row by row.
#[derive(Clone, Debug, PartialEq)]
pub struct Image {
    pub header: Header,
    pub height: u32,
    pub width: u32,
    pub encoding: String,
    pub is_bigendian: u8,
    pub step: u32,
    pub data: Vec<u8>,
}

/// The fix status of a satellite navigation receiver.
#[derive(PartialEq, Eq, Structural, Clone, Copy, Debug)]
pub struct NavSatStatus {
    pub status: i8,
    pub service: u16,
}

/// A point cloud whose point layout is described by `fields`.
#[derive(Clone, Debug, PartialEq)]
pub struct PointCloud2 {
    pub header: Header,
    pub height: u32,
    pub width: u32,
    pub fields: Vec<PointField>,
    pub is_bigendian: bool,
    pub point_step: u32,
    pub row_step: u32,
    pub data: Vec<u8>,
    pub is_dense: bool,
}

/// One named value inside each point record of a cloud.
#[derive(Clone, Debug, PartialEq)]
pub struct PointField {
    pub name: String,
    pub offset: u32,
    pub datatype: u8,
    pub count: u32,
}

/// A rectangle inside an image.
#[derive(PartialEq, Eq, Structural, Clone, Copy, Debug)]
pub struct RegionOfInterest {
    pub x_offset: u32,
    pub y_offset: u32,
    pub height: u32,
    pub width: u32,
    pub do_rectify: bool,
}



impl Message for PointField {
    open spec fn shape_view() -> ShapeView {
        ShapeView::Record(
            seq![
                ShapeView::Text,
                ShapeView::Prim(Prim::UInt32),
                ShapeView::Prim(Prim::UInt8),
                ShapeView::Prim(Prim::UInt32),
            ],
        )
    }

    open spec fn datum(&self) -> Datum {
        Datum::Record(
            seq![
                Datum::Text(self.name@),
                Datum::Prim(Prim::UInt32, self.offset as u64),
                Datum::Prim(Prim::UInt8, self.datatype as u64),
                Datum::Prim(Prim::UInt32, self.count as u64),
            ],
        )
    }

    fn shape() -> (s: Shape) {
        let fs = vec![
            Shape::Text,
            Shape::Prim(Prim::UInt32),
            Shape::Prim(Prim::UInt8),
            Shape::Prim(Prim::UInt32),
        ];
        proof {
            lemma_view_shapes_ext(fs@, Self::shape_view()->Record_0);
        }
        Shape::Record(fs)
    }

    fn to_value(&self) -> (v: Value) {
        let vs = vec![
            Value::Text(self.name.clone()),
            Value::Prim(Prim::UInt32, self.offset as u64),
            Value::Prim(Prim::UInt8, self.datatype as u64),
            Value::Prim(Prim::UInt32, self.count as u64),
        ];
        proof {
            lemma_view_values_ext(vs@, self.datum()->Record_0);
        }
        let v = Value::Record(vs);
        proof {
            lemma_pow256_8();
            lemma_fits_parts(v@);
            lemma_conforms_parts(v@, Self::shape_view());
            if fits(v@) {
                assert(fits(view_values(vs@)[0]));
            }
        }
        v
    }

    fn from_value(v: &Value) -> (r: Self) {
        proof {
            lemma_conforms_parts(v@, Self::shape_view());
            lemma_pow256_8();
        }
        let vs = parts_of(v);
        proof {
            let ds = view_values(vs@);
            assert(conforms(ds[0], ShapeView::Text));
            assert(conforms(ds[1], ShapeView::Prim(Prim::UInt32)));
            assert(conforms(ds[2], ShapeView::Prim(Prim::UInt8)));
            assert(conforms(ds[3], ShapeView::Prim(Prim::UInt32)));
        }
        let r = PointField {
            name: text_of(&vs[0]),
            offset: bits_of(&vs[1]) as u32,
            datatype: bits_of(&vs[2]) as u8,
            count: bits_of(&vs[3]) as u32,
        };
        assert(r.datum()->Record_0 =~= view_values(vs@));
        r
    }
}

/// A sequence of point fields.
pub open spec fn point_fields_datum(fs: Seq<PointField>) -> Datum {
    Datum::Sequence(Seq::new(fs.len(), |i: int| fs[i].datum()))
}

pub open spec fn point_fields_shape() -> ShapeView {
    ShapeView::Sequence(Box::new(PointField::shape_view()))
}

fn point_fields_value(fs: &Vec<PointField>) -> (v: Value)
    ensures
        v@ == point_fields_datum(fs@),
        fits(v@) ==> conforms(v@, point_fields_shape()),
{
    let mut vs: Vec<Value> = Vec::new();
    let mut i: usize = 0;
    while i < fs.len()
        invariant
            i <= fs@.len(),
            view_values(vs@) == Seq::new(i as nat, |j: int| fs@[j].datum()),
            forall|j: int| 0 <= j < i ==> fits(#[trigger] vs@[j]@) ==> conforms(vs@[j]@, PointField::shape_view()),
            vs@.len() == i,
        decreases fs@.len() - i,
    {
        let ghost before = vs@;
        let x = fs[i].to_value();
        vs.push(x);
        assert(vs@.drop_last() =~= before);
        assert(view_values(vs@) == view_values(before).push(x@));
        assert(view_values(vs@) =~= Seq::new((i + 1) as nat, |j: int| fs@[j].datum()));
        assert(vs@[i as int] == x);
        i = i + 1;
    }
    let v = Value::Sequence(vs);
    proof {
        lemma_pow256_8();
        lemma_view_values(vs@);
        lemma_fits_parts(v@);
        lemma_conforms_parts(v@, point_fields_shape());
        if fits(v@) {
            assert forall|j: int| 0 <= j < vs@.len() implies conforms(
                #[trigger] view_values(vs@)[j],
                PointField::shape_view(),
            ) by {
                assert(fits(view_values(vs@)[j]));
            }
        }
    }
    v
}

fn point_fields_from_value(v: &Value) -> (r: Vec<PointField>)
    requires
        conforms(v@, point_fields_shape()),
    ensures
        point_fields_datum(r@) == v@,
{
    proof {
        lemma_conforms_parts(v@, point_fields_shape());
    }
    let vs = parts_of(v);
    let mut r: Vec<PointField> = Vec::new();
    let mut i: usize = 0;
    while i < vs.len()
        invariant
            i <= vs@.len(),
            view_values(vs@).len() == vs@.len(),
            forall|j: int| 0 <= j < vs@.len() ==> #[trigger] view_values(vs@)[j] == vs@[j]@,
            forall|j: int|
                0 <= j < vs@.len() ==> conforms(#[trigger] view_values(vs@)[j], PointField::shape_view()),
            r@.len() == i,
            forall|j: int| 0 <= j < i ==> (#[trigger] r@[j]).datum() == view_values(vs@)[j],
        decreases vs@.len() - i,
    {
        assert(conforms(view_values(vs@)[i as int], PointField::shape_view()));
        let f = PointField::from_value(&vs[i]);
        r.push(f);
        i = i + 1;
    }
    assert(point_fields_datum(r@)->Sequence_0 =~= view_values(vs@));
    r
}

impl Message for PointCloud2 {
    open spec fn shape_view() -> ShapeView {
        ShapeView::Record(
            seq![
                Header::shape_view(),
                ShapeView::Prim(Prim::UInt32),
                ShapeView::Prim(Prim::UInt32),
                point_fields_shape(),
                ShapeView::Prim(Prim::Bool),
                ShapeView::Prim(Prim::UInt32),
                ShapeView::Prim(Prim::UInt32),
                bytes_shape(),
                ShapeView::Prim(Prim::Bool),
            ],
        )
    }

    open spec fn datum(&self) -> Datum {
        Datum::Record(
            seq![
                self.header.datum(),
                Datum::Prim(Prim::UInt32, self.height as u64),
                Datum::Prim(Prim::UInt32, self.width as u64),
                point_fields_datum(self.fields@),
                bool_datum(self.is_bigendian),
                Datum::Prim(Prim::UInt32, self.point_step as u64),
                Datum::Prim(Prim::UInt32, self.row_step as u64),
                bytes_datum(self.data@),
                bool_datum(self.is_dense),
            ],
        )
    }

    fn shape() -> (s: Shape) {
        let e = PointField::shape();
        let fs = vec![
            Header::shape(),
            Shape::Prim(Prim::UInt32),
            Shape::Prim(Prim::UInt32),
            Shape::Sequence(Box::new(e)),
            Shape::Prim(Prim::Bool),
            Shape::Prim(Prim::UInt32),
            Shape::Prim(Prim::UInt32),
            bytes_shape_exec(),
            Shape::Prim(Prim::Bool),
        ];
        proof {
            lemma_view_shapes_ext(fs@, Self::shape_view()->Record_0);
        }
        Shape::Record(fs)
    }

    fn to_value(&self) -> (v: Value) {
        let vs = vec![
            self.header.to_value(),
            Value::Prim(Prim::UInt32, self.height as u64),
            Value::Prim(Prim::UInt32, self.width as u64),
            point_fields_value(&self.fields),
            bool_value(self.is_bigendian),
            Value::Prim(Prim::UInt32, self.point_step as u64),
            Value::Prim(Prim::UInt32, self.row_step as u64),
            bytes_value(&self.data),
            bool_value(self.is_dense),
        ];
        proof {
            lemma_view_values_ext(vs@, self.datum()->Record_0);
        }
        let v = Value::Record(vs);
        proof {
            lemma_pow256_8();
            lemma_fits_parts(v@);
            lemma_conforms_parts(v@, Self::shape_view());
            if fits(v@) {
                assert(fits(view_values(vs@)[0]));
                assert(fits(view_values(vs@)[3]));
                assert(fits(view_values(vs@)[7]));
            }
        }
        v
    }

    fn from_value(v: &Value) -> (r: Self) {
        proof {
            lemma_conforms_parts(v@, Self::shape_view());
            lemma_pow256_8();
        }
        let vs = parts_of(v);
        proof {
            let ds = view_values(vs@);
            assert(conforms(ds[0], Header::shape_view()));
            assert(conforms(ds[1], ShapeView::Prim(Prim::UInt32)));
            assert(conforms(ds[2], ShapeView::Prim(Prim::UInt32)));
            assert(conforms(ds[3], point_fields_shape()));
            assert(conforms(ds[4], ShapeView::Prim(Prim::Bool)));
            assert(conforms(ds[5], ShapeView::Prim(Prim::UInt32)));
            assert(conforms(ds[6], ShapeView::Prim(Prim::UInt32)));
            assert(conforms(ds[7], bytes_shape()));
            assert(conforms(ds[8], ShapeView::Prim(Prim::Bool)));
        }
        let r = PointCloud2 {
            header: Header::from_value(&vs[0]),
            height: bits_of(&vs[1]) as u32,
            width: bits_of(&vs[2]) as u32,
            fields: point_fields_from_value(&vs[3]),
            is_bigendian: bool_from_value(&vs[4]),
            point_step: bits_of(&vs[5]) as u32,
            row_step: bits_of(&vs[6]) as u32,
            data: bytes_from_value(&vs[7]),
            is_dense: bool_from_value(&vs[8]),
        };
        assert(r.datum()->Record_0 =~= view_values(vs@));
        r
    }
}

/// Whether `n` names a message type of this package.
pub open spec fn type_supported(n: Seq<char>) -> bool {
    n == "CameraInfo"@
        || n == "CompressedImage"@
        || n == "Image"@
        || n == "Imu"@
        || n == "NavSatFix"@
        || n == "NavSatStatus"@
        || n == "PointCloud2"@
        || n == "PointField"@
        || n == "RegionOfInterest"@
}

/// The schema names of this package's message types.
pub open spec fn type_list() -> Seq<Seq<char>> {
    seq![
        "sensor_msgs/msg/CameraInfo"@,
        "sensor_msgs/msg/CompressedImage"@,
        "sensor_msgs/msg/Image"@,
        "sensor_msgs/msg/Imu"@,
        "sensor_msgs/msg/NavSatFix"@,
        "sensor_msgs/msg/NavSatStatus"@,
        "sensor_msgs/msg/PointCloud2"@,
        "sensor_msgs/msg/PointField"@,
        "sensor_msgs/msg/RegionOfInterest"@,
    ]
}

/// Whether `name` names a message type of this package.
pub fn is_type_supported(name: &str) -> (r: bool)
    ensures
        r == type_supported(name@),
{
    str_eq(name, "CameraInfo") || str_eq(name, "CompressedImage") || str_eq(name, "Image") || str_eq(name, "Imu") || str_eq(name, "NavSatFix") || str_eq(name, "NavSatStatus") || str_eq(name, "PointCloud2") || str_eq(name, "PointField") || str_eq(name, "RegionOfInterest")
}

/// The schema names of this package's message types.
pub fn list_types() -> (r: Vec<&'static str>)
    ensures
        r@.map_values(|s: &str| s@) == type_list(),
{
    let r = vec![
        "sensor_msgs/msg/CameraInfo",
        "sensor_msgs/msg/CompressedImage",
        "sensor_msgs/msg/Image",
        "sensor_msgs/msg/Imu",
        "sensor_msgs/msg/NavSatFix",
        "sensor_msgs/msg/NavSatStatus",
        "sensor_msgs/msg/PointCloud2",
        "sensor_msgs/msg/PointField",
        "sensor_msgs/msg/RegionOfInterest",
    ];
    assert(r@.map_values(|s: &str| s@) =~= type_list());
    r
}

impl SchemaType for CompressedImage {
    const SCHEMA_NAME: &'static str = "sensor_msgs/msg/CompressedImage";

    open spec fn schema_name_spec() -> Seq<char> {
        "sensor_msgs/msg/CompressedImage"@
    }

    fn schema_name() -> (r: &'static str) {
        "sensor_msgs/msg/CompressedImage"
    }
}

impl SchemaType for Image {
    const SCHEMA_NAME: &'static str = "sensor_msgs/msg/Image";
    open spec fn schema_name_spec() -> Seq<char> {
        "sensor_msgs/msg/Image"@
    }

    fn schema_name() -> (r: &'static str) {
        "sensor_msgs/msg/Image"
    }
}

impl SchemaType for NavSatStatus {
    const SCHEMA_NAME: &'static str = "sensor_msgs/msg/NavSatStatus";

    open spec fn schema_name_spec() -> Seq<char> {
        "sensor_msgs/msg/NavSatStatus"@
    }

    fn schema_name() -> (r: &'static str) {
        "sensor_msgs/msg/NavSatStatus"
    }
}

impl SchemaType for PointCloud2 {
    const SCHEMA_NAME: &'static str = "sensor_msgs/msg/PointCloud2";

    open spec fn schema_name_spec() -> Seq<char> {
        "sensor_msgs/msg/PointCloud2"@
    }

    fn schema_name() -> (r: &'static str) {
        "sensor_msgs/msg/PointCloud2"
    }
}

impl SchemaType for PointField {
    const SCHEMA_NAME: &'static str = "sensor_msgs/msg/PointField";

    open spec fn schema_name_spec() -> Seq<char> {
        "sensor_msgs/msg/PointField"@
    }

    fn schema_name() -> (r: &'static str) {
        "sensor_msgs/msg/PointField"
    }
}

impl SchemaType for RegionOfInterest {
    const SCHEMA_NAME: &'static str = "sensor_msgs/msg/RegionOfInterest";

    open spec fn schema_name_spec() -> Seq<char> {
        "sensor_msgs/msg/RegionOfInterest"@
    }

    fn schema_name() -> (r: &'static str) {
        "sensor_msgs/msg/RegionOfInterest"
    }
}

impl Message for CompressedImage {
    open spec fn shape_view() -> ShapeView {
        ShapeView::Record(
            seq![
                Header::shape_view(),
                ShapeView::Text,
                bytes_shape(),
            ],
        )
    }

    open spec fn datum(&self) -> Datum {
        Datum::Record(
            seq![
                self.header.datum(),
                Datum::Text(self.format@),
                bytes_datum(self.data@),
            ],
        )
    }

    fn shape() -> (s: Shape) {
        let fs = vec![
            Header::shape(),
            Shape::Text,
            bytes_shape_exec(),
        ];
        proof {
            lemma_view_shapes_ext(fs@, Self::shape_view()->Record_0);
        }
        Shape::Record(fs)
    }

    fn to_value(&self) -> (v: Value) {
        let vs = vec![
            self.header.to_value(),
            Value::Text(self.format.clone()),
            bytes_value(&self.data),
        ];
        proof {
            lemma_view_values_ext(vs@, self.datum()->Record_0);
        }
        let v = Value::Record(vs);
        proof {
            lemma_pow256_8();
            lemma_fits_parts(v@);
            lemma_conforms_parts(v@, Self::shape_view());
            if fits(v@) {
                assert(fits(view_values(vs@)[0]));
                assert(fits(view_values(vs@)[1]));
                assert(fits(view_values(vs@)[2]));
            }
        }
        v
    }

    fn from_value(v: &Value) -> (r: Self) {
        proof {
            lemma_conforms_parts(v@, Self::shape_view());
            lemma_pow256_8();
        }
        let vs = parts_of(v);
        proof {
            let ds = view_values(vs@);
            assert(conforms(ds[0], Header::shape_view()));
            assert(conforms(ds[1], ShapeView::Text));
            assert(conforms(ds[2], bytes_shape()));
        }
        let r = CompressedImage {
            header: Header::from_value(&vs[0]),
            format: text_of(&vs[1]),
            data: bytes_from_value(&vs[2]),
        };
        assert(r.datum()->Record_0 =~= view_values(vs@));
        r
    }
}

impl Message for Image {
    open spec fn shape_view() -> ShapeView {
        ShapeView::Record(
            seq![
                Header::shape_view(),
                ShapeView::Prim(Prim::UInt32),
                ShapeView::Prim(Prim::UInt32),
                ShapeView::Text,
                ShapeView::Prim(Prim::UInt8),
                ShapeView::Prim(Prim::UInt32),
                bytes_shape(),
            ],
        )
    }

    open spec fn datum(&self) -> Datum {
        Datum::Record(
            seq![
                self.header.datum(),
                Datum::Prim(Prim::UInt32, self.height as u64),
                Datum::Prim(Prim::UInt32, self.width as u64),
                Datum::Text(self.encoding@),
                Datum::Prim(Prim::UInt8, self.is_bigendian as u64),
                Datum::Prim(Prim::UInt32, self.step as u64),
                bytes_datum(self.data@),
            ],
        )
    }

    fn shape() -> (s: Shape) {
        let fs = vec![
            Header::shape(),
            Shape::Prim(Prim::UInt32),
            Shape::Prim(Prim::UInt32),
            Shape::Text,
            Shape::Prim(Prim::UInt8),
            Shape::Prim(Prim::UInt32),
            bytes_shape_exec(),
        ];
        proof {
            lemma_view_shapes_ext(fs@, Self::shape_view()->Record_0);
        }
        Shape::Record(fs)
    }

    fn to_value(&self) -> (v: Value) {
        let vs = vec![
            self.header.to_value(),
            Value::Prim(Prim::UInt32, self.height as u64),
            Value::Prim(Prim::UInt32, self.width as u64),
            Value::Text(self.encoding.clone()),
            Value::Prim(Prim::UInt8, self.is_bigendian as u64),
            Value::Prim(Prim::UInt32, self.step as u64),
            bytes_value(&self.data),
        ];
        proof {
            lemma_view_values_ext(vs@, self.datum()->Record_0);
        }
        let v = Value::Record(vs);
        proof {
            lemma_pow256_8();
            lemma_fits_parts(v@);
            lemma_conforms_parts(v@, Self::shape_view());
            if fits(v@) {
                assert(fits(view_values(vs@)[0]));
                assert(fits(view_values(vs@)[3]));
                assert(fits(view_values(vs@)[6]));
            }
        }
        v
    }

    fn from_value(v: &Value) -> (r: Self) {
        proof {
            lemma_conforms_parts(v@, Self::shape_view());
            lemma_pow256_8();
        }
        let vs = parts_of(v);
        proof {
            let ds = view_values(vs@);
            assert(conforms(ds[0], Header::shape_view()));
            assert(conforms(ds[1], ShapeView::Prim(Prim::UInt32)));
            assert(conforms(ds[2], ShapeView::Prim(Prim::UInt32)));
            assert(conforms(ds[3], ShapeView::Text));
            assert(conforms(ds[4], ShapeView::Prim(Prim::UInt8)));
            assert(conforms(ds[5], ShapeView::Prim(Prim::UInt32)));
            assert(conforms(ds[6], bytes_shape()));
        }
        let r = Image {
            header: Header::from_value(&vs[0]),
            height: bits_of(&vs[1]) as u32,
            width: bits_of(&vs[2]) as u32,
            encoding: text_of(&vs[3]),
            is_bigendian: bits_of(&vs[4]) as u8,
            step: bits_of(&vs[5]) as u32,
            data: bytes_from_value(&vs[6]),
        };
        assert(r.datum()->Record_0 =~= view_values(vs@));
        r
    }
}

impl Message for NavSatStatus {
    open spec fn shape_view() -> ShapeView {
        ShapeView::Record(
            seq![
                ShapeView::Prim(Prim::Int8),
                ShapeView::Prim(Prim::UInt16),
            ],
        )
    }

    open spec fn datum(&self) -> Datum {
        Datum::Record(
            seq![
                Datum::Prim(Prim::Int8, (self.status as u8) as u64),
                Datum::Prim(Prim::UInt16, self.service as u64),
            ],
        )
    }

    fn shape() -> (s: Shape) {
        let fs = vec![
            Shape::Prim(Prim::Int8),
            Shape::Prim(Prim::UInt16),
        ];
        proof {
            lemma_view_shapes_ext(fs@, Self::shape_view()->Record_0);
        }
        Shape::Record(fs)
    }

    fn to_value(&self) -> (v: Value) {
        let vs = vec![
            Value::Prim(Prim::Int8, (self.status as u8) as u64),
            Value::Prim(Prim::UInt16, self.service as u64),
        ];
        proof {
            lemma_view_values_ext(vs@, self.datum()->Record_0);
        }
        let v = Value::Record(vs);
        proof {
            lemma_pow256_8();
            lemma_fits_parts(v@);
            lemma_conforms_parts(v@, Self::shape_view());
        }
        v
    }

    fn from_value(v: &Value) -> (r: Self) {
        proof {
            lemma_conforms_parts(v@, Self::shape_view());
            lemma_pow256_8();
        }
        let vs = parts_of(v);
        proof {
            let ds = view_values(vs@);
            assert(conforms(ds[0], ShapeView::Prim(Prim::Int8)));
            assert(conforms(ds[1], ShapeView::Prim(Prim::UInt16)));
        }
        let b0 = bits_of(&vs[0]);
        proof {
            assert(vs@[0]@ == view_values(vs@)[0]);
            lemma_i8_bits(b0);
        }
        let r = NavSatStatus {
            status: (b0 as u8) as i8,
            service: bits_of(&vs[1]) as u16,
        };
        assert(r.datum()->Record_0 =~= view_values(vs@));
        r
    }
}

impl Message for RegionOfInterest {
    open spec fn shape_view() -> ShapeView {
        ShapeView::Record(
            seq![
                ShapeView::Prim(Prim::UInt32),
                ShapeView::Prim(Prim::UInt32),
                ShapeView::Prim(Prim::UInt32),
                ShapeView::Prim(Prim::UInt32),
                ShapeView::Prim(Prim::Bool),
            ],
        )
    }

    open spec fn datum(&self) -> Datum {
        Datum::Record(
            seq![
                Datum::Prim(Prim::UInt32, self.x_offset as u64),
                Datum::Prim(Prim::UInt32, self.y_offset as u64),
                Datum::Prim(Prim::UInt32, self.height as u64),
                Datum::Prim(Prim::UInt32, self.width as u64),
                bool_datum(self.do_rectify),
            ],
        )
    }

    fn shape() -> (s: Shape) {
        let fs = vec![
            Shape::Prim(Prim::UInt32),
            Shape::Prim(Prim::UInt32),
            Shape::Prim(Prim::UInt32),
            Shape::Prim(Prim::UInt32),
            Shape::Prim(Prim::Bool),
        ];
        proof {
            lemma_view_shapes_ext(fs@, Self::shape_view()->Record_0);
        }
        Shape::Record(fs)
    }

    fn to_value(&self) -> (v: Value) {
        let vs = vec![
            Value::Prim(Prim::UInt32, self.x_offset as u64),
            Value::Prim(Prim::UInt32, self.y_offset as u64),
            Value::Prim(Prim::UInt32, self.height as u64),
            Value::Prim(Prim::UInt32, self.width as u64),
            bool_value(self.do_rectify),
        ];
        proof {
            lemma_view_values_ext(vs@, self.datum()->Record_0);
        }
        let v = Value::Record(vs);
        proof {
            lemma_pow256_8();
            lemma_fits_parts(v@);
            lemma_conforms_parts(v@, Self::shape_view());
        }
        v
    }

    fn from_value(v: &Value) -> (r: Self) {
        proof {
            lemma_conforms_parts(v@, Self::shape_view());
            lemma_pow256_8();
        }
        let vs = parts_of(v);
        proof {
            let ds = view_values(vs@);
            assert(conforms(ds[0], ShapeView::Prim(Prim::UInt32)));
            assert(conforms(ds[1], ShapeView::Prim(Prim::UInt32)));
            assert(conforms(ds[2], ShapeView::Prim(Prim::UInt32)));
            assert(conforms(ds[3], ShapeView::Prim(Prim::UInt32)));
            assert(conforms(ds[4], ShapeView::Prim(Prim::Bool)));
        }
        let r = RegionOfInterest {
            x_offset: bits_of(&vs[0]) as u32,
            y_offset: bits_of(&vs[1]) as u32,
            height: bits_of(&vs[2]) as u32,
            width: bits_of(&vs[3]) as u32,
            do_rectify: bool_from_value(&vs[4]),
        };
        assert(r.datum()->Record_0 =~= view_values(vs@));
        r
    }
}

} // verus!
