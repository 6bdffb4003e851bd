//! Decoding of point clouds whose point layout is given by field descriptors
//! carried inside the cloud itself.

use vstd::prelude::*;
use crate::bytes::{lemma_be_is_reversed_le, read_unsigned, unsigned_value};
use crate::ieee::{trunc_bits, trunc_float_bits};
use vstd::arithmetic::power2::{lemma2_to64, lemma2_to64_rest};
use crate::sensor_msgs::{PointCloud2, PointField};

verus! {

/// One value read from a point record. Integers are kept exactly; floats are
/// kept as their IEEE-754 bits, to be widened to double precision by the caller.
#[derive(PartialEq, Eq, Structural, Clone, Copy, Debug)]
pub enum Sample {
    Int(i64),
    Float32(u32),
    Float64(u64),
}

/// The element type of a point field, decoded from its tag.
#[derive(PartialEq, Eq, Structural, Clone, Copy, Debug)]
pub enum Datatype {
    Int8,
    UInt8,
    Int16,
    UInt16,
    Int32,
    UInt32,
    Float32,
    Float64,
    Unknown,
}

impl Datatype {
    pub open spec fn from_tag_spec(tag: u8) -> Datatype {
        match tag {
            1 => Datatype::Int8,
            2 => Datatype::UInt8,
            3 => Datatype::Int16,
            4 => Datatype::UInt16,
            5 => Datatype::Int32,
            6 => Datatype::UInt32,
            7 => Datatype::Float32,
            8 => Datatype::Float64,
            _ => Datatype::Unknown,
        }
    }

    pub fn from_tag(tag: u8) -> (r: Datatype)
        ensures
            r == Self::from_tag_spec(tag),
    {
        match tag {
            1 => Datatype::Int8,
            2 => Datatype::UInt8,
            3 => Datatype::Int16,
            4 => Datatype::UInt16,
            5 => Datatype::Int32,
            6 => Datatype::UInt32,
            7 => Datatype::Float32,
            8 => Datatype::Float64,
            _ => Datatype::Unknown,
        }
    }

    /// Bytes taken by one element; none for an unknown tag.
    pub open spec fn width_spec(self) -> nat {
        match self {
            Datatype::Int8 | Datatype::UInt8 => 1,
            Datatype::Int16 | Datatype::UInt16 => 2,
            Datatype::Int32 | Datatype::UInt32 | Datatype::Float32 => 4,
            Datatype::Float64 => 8,
            Datatype::Unknown => 0,
        }
    }

    pub fn width(&self) -> (r: usize)
        ensures
            r == self.width_spec(),
    {
        match self {
            Datatype::Int8 | Datatype::UInt8 => 1,
            Datatype::Int16 | Datatype::UInt16 => 2,
            Datatype::Int32 | Datatype::UInt32 | Datatype::Float32 => 4,
            Datatype::Float64 => 8,
            Datatype::Unknown => 0,
        }
    }

    /// The sample held by the unsigned number `bits` of this type's width.
    pub open spec fn sample_spec(self, bits: nat) -> Sample {
        match self {
            Datatype::Int8 => Sample::Int((bits as u8) as i8 as i64),
            Datatype::UInt8 => Sample::Int((bits as u8) as i64),
            Datatype::Int16 => Sample::Int((bits as u16) as i16 as i64),
            Datatype::UInt16 => Sample::Int((bits as u16) as i64),
            Datatype::Int32 => Sample::Int((bits as u32) as i32 as i64),
            Datatype::UInt32 => Sample::Int((bits as u32) as i64),
            Datatype::Float32 => Sample::Float32(bits as u32),
            Datatype::Float64 => Sample::Float64(bits as u64),
            Datatype::Unknown => Sample::Int(0),
        }
    }

    pub fn sample(&self, bits: u64) -> (r: Sample)
        ensures
            r == self.sample_spec(bits as nat),
    {
        match self {
            Datatype::Int8 => Sample::Int((bits as u8) as i8 as i64),
            Datatype::UInt8 => Sample::Int((bits as u8) as i64),
            Datatype::Int16 => Sample::Int((bits as u16) as i16 as i64),
            Datatype::UInt16 => Sample::Int((bits as u16) as i64),
            Datatype::Int32 => Sample::Int((bits as u32) as i32 as i64),
            Datatype::UInt32 => Sample::Int((bits as u32) as i64),
            Datatype::Float32 => Sample::Float32(bits as u32),
            Datatype::Float64 => Sample::Float64(bits),
            Datatype::Unknown => Sample::Int(0),
        }
    }
}

/// The cluster id that a sample gives: an integer as it is, a float truncated
/// toward zero and clamped to `i64`, not-a-number as 0.
pub open spec fn sample_id(s: Sample) -> i64 {
    match s {
        Sample::Int(i) => i,
        Sample::Float32(b) => trunc_bits(b as nat, 8, 23),
        Sample::Float64(b) => trunc_bits(b as nat, 11, 52),
    }
}

pub fn id_of(s: Sample) -> (r: i64)
    ensures
        r == sample_id(s),
{
    proof {
        lemma2_to64();
        lemma2_to64_rest();
    }
    match s {
        Sample::Int(i) => i,
        Sample::Float32(b) => trunc_float_bits(b as u64, 8, 23),
        Sample::Float64(b) => trunc_float_bits(b, 11, 52),
    }
}

/// A decoded point: its coordinates, its cluster id, and every other field by
/// name, in the order in which the names first occurred.
#[derive(Clone, Debug, PartialEq)]
pub struct Point {
    pub x: Sample,
    pub y: Sample,
    pub z: Sample,
    pub id: i64,
    pub fields: Vec<(String, Sample)>,
}

/// What a `Point` holds, with the names as character sequences.
pub struct PointView {
    pub x: Sample,
    pub y: Sample,
    pub z: Sample,
    pub id: i64,
    pub fields: Seq<(Seq<char>, Sample)>,
}

impl View for Point {
    type V = PointView;

    open spec fn view(&self) -> PointView {
        PointView {
            x: self.x,
            y: self.y,
            z: self.z,
            id: self.id,
            fields: self.fields@.map_values(|e: (String, Sample)| (e.0@, e.1)),
        }
    }
}

pub open spec fn name_x() -> Seq<char> {
    seq!['x']
}

pub open spec fn name_y() -> Seq<char> {
    seq!['y']
}

pub open spec fn name_z() -> Seq<char> {
    seq!['z']
}

pub open spec fn name_cluster_id() -> Seq<char> {
    seq!['c', 'l', 'u', 's', 't', 'e', 'r', '_', 'i', 'd']
}

/// Whether a field of this name has an attribute of its own in a point.
pub open spec fn is_reserved_name(n: Seq<char>) -> bool {
    n == name_x() || n == name_y() || n == name_z() || n == name_cluster_id()
}

/// The point before any field is applied.
pub open spec fn empty_point() -> PointView {
    PointView {
        x: Sample::Float64(0),
        y: Sample::Float64(0),
        z: Sample::Float64(0),
        id: 0,
        fields: seq![],
    }
}

/// Entries with `k` set to `v`: an entry of that name is overwritten in place,
/// else one is appended.
pub open spec fn insert_entry(es: Seq<(Seq<char>, Sample)>, k: Seq<char>, v: Sample) -> Seq<
    (Seq<char>, Sample),
>
    decreases es.len(),
{
    if es.len() == 0 {
        seq![(k, v)]
    } else if es[0].0 == k {
        es.update(0, (k, v))
    } else {
        seq![es[0]] + insert_entry(es.drop_first(), k, v)
    }
}

/// The point `p` after a field named `n` with sample `s`.
pub open spec fn apply_field(p: PointView, n: Seq<char>, s: Sample) -> PointView {
    if n == name_x() {
        PointView { x: s, ..p }
    } else if n == name_y() {
        PointView { y: s, ..p }
    } else if n == name_z() {
        PointView { z: s, ..p }
    } else if n == name_cluster_id() {
        PointView { id: sample_id(s), ..p }
    } else {
        PointView { fields: insert_entry(p.fields, n, s), ..p }
    }
}

/// The sample that field `f` holds in the point record `rec`.
pub open spec fn field_sample(f: PointField, rec: Seq<u8>, big_endian: bool) -> Sample {
    let dt = Datatype::from_tag_spec(f.datatype);
    dt.sample_spec(
        unsigned_value(rec.subrange(f.offset as int, f.offset + dt.width_spec()), big_endian),
    )
}

/// The point that the record `rec` holds under the descriptors `fs`, applied in
/// order, skipping those of an unknown type.
pub open spec fn point_of(fs: Seq<PointField>, rec: Seq<u8>, big_endian: bool) -> PointView
    decreases fs.len(),
{
    if fs.len() == 0 {
        empty_point()
    } else {
        let p = point_of(fs.drop_last(), rec, big_endian);
        let f = fs.last();
        if Datatype::from_tag_spec(f.datatype) == Datatype::Unknown {
            p
        } else {
            apply_field(p, f.name@, field_sample(f, rec, big_endian))
        }
    }
}

/// Whether the bytes of field `f` lie inside a point record of `point_step` bytes.
pub open spec fn field_fits(f: PointField, point_step: u32) -> bool {
    let dt = Datatype::from_tag_spec(f.datatype);
    dt != Datatype::Unknown ==> f.offset + dt.width_spec() <= point_step
}

pub open spec fn fields_fit(c: PointCloud2) -> bool {
    forall|i: int| 0 <= i < c.fields@.len() ==> field_fits(#[trigger] c.fields@[i], c.point_step)
}

/// Where the record of the point at `row`, `col` starts in the data.
pub open spec fn point_start(c: PointCloud2, row: int, col: int) -> int {
    row * c.row_step + col * c.point_step
}

pub open spec fn points_in_data(c: PointCloud2) -> bool {
    forall|row: int, col: int|
        0 <= row < c.height && 0 <= col < c.width ==> #[trigger] point_start(c, row, col)
            + c.point_step <= c.data@.len()
}

/// The record of the point at `row`, `col`.
pub open spec fn point_record(c: PointCloud2, row: int, col: int) -> Seq<u8> {
    c.data@.subrange(point_start(c, row, col), point_start(c, row, col) + c.point_step)
}

/// The point at `row`, `col`.
pub open spec fn cloud_point(c: PointCloud2, row: int, col: int) -> PointView {
    point_of(c.fields@, point_record(c, row, col), c.is_bigendian)
}

/// Whether `ps` holds the points of the cloud, one per row and column, row by
/// row.
pub open spec fn decoded_as(c: PointCloud2, ps: Seq<PointView>) -> bool {
    &&& ps.len() == c.height * c.width
    &&& forall|row: int, col: int|
        0 <= row < c.height && 0 <= col < c.width ==> #[trigger] ps[row * c.width + col]
            == cloud_point(c, row, col)
}

/// Why a cloud cannot be decoded.
#[derive(PartialEq, Eq, Structural, Clone, Copy, Debug)]
pub enum CloudError {
    /// A field of a known type reaches past the end of the point record.
    FieldOutOfBounds,
    /// A point record reaches past the end of the data.
    PointOutOfBounds,
}

/// Whether the cloud decodes without error.
pub open spec fn decodable(c: PointCloud2) -> bool {
    c.height == 0 || c.width == 0 || (fields_fit(c) && points_in_data(c))
}

/// Setting an entry overwrites the first entry of that name, or appends one.
pub proof fn lemma_insert_entry(es: Seq<(Seq<char>, Sample)>, k: Seq<char>, v: Sample, j: int)
    requires
        0 <= j <= es.len(),
        forall|i: int| 0 <= i < j ==> (#[trigger] es[i]).0 != k,
        j < es.len() ==> es[j].0 == k,
    ensures
        insert_entry(es, k, v) == if j < es.len() {
            es.update(j, (k, v))
        } else {
            es.push((k, v))
        },
    decreases es.len(),
{
    if es.len() == 0 {
        assert(seq![(k, v)] =~= es.push((k, v)));
    } else if j > 0 {
        let t = es.drop_first();
        assert forall|i: int| 0 <= i < j - 1 implies (#[trigger] t[i]).0 != k by {
            assert(t[i] == es[i + 1]);
        }
        lemma_insert_entry(t, k, v, j - 1);
        if j < es.len() {
            assert(seq![es[0]] + t.update(j - 1, (k, v)) =~= es.update(j, (k, v)));
        } else {
            assert(seq![es[0]] + t.push((k, v)) =~= es.push((k, v)));
        }
    }
}

impl Point {
    fn empty() -> (r: Point)
        ensures
            r@ == empty_point(),
    {
        let r = Point {
            x: Sample::Float64(0),
            y: Sample::Float64(0),
            z: Sample::Float64(0),
            id: 0,
            fields: Vec::new(),
        };
        assert(r@.fields =~= seq![]);
        r
    }

    /// Applies a field named `name` with sample `s`.
    fn apply(&mut self, name: &String, s: Sample)
        ensures
            final(self)@ == apply_field(old(self)@, name@, s),
    {
        proof {
            reveal_strlit("x");
            reveal_strlit("y");
            reveal_strlit("z");
            reveal_strlit("cluster_id");
            assert("x"@ =~= name_x());
            assert("y"@ =~= name_y());
            assert("z"@ =~= name_z());
            assert("cluster_id"@ =~= name_cluster_id());
        }
        if crate::text::str_eq(name.as_str(), "x") {
            self.x = s;
        } else if crate::text::str_eq(name.as_str(), "y") {
            self.y = s;
        } else if crate::text::str_eq(name.as_str(), "z") {
            self.z = s;
        } else if crate::text::str_eq(name.as_str(), "cluster_id") {
            self.id = id_of(s);
        } else {
            assert(!is_reserved_name(name@));
            let ghost es = self@.fields;
            let mut j: usize = 0;
            while j < self.fields.len()
                invariant
                    j <= self.fields@.len(),
                    self@ == old(self)@,
                    !is_reserved_name(name@),
                    self@.fields == es,
                    self.fields@.len() == es.len(),
                    forall|i: int| 0 <= i < j ==> (#[trigger] es[i]).0 != name@,
                decreases self.fields@.len() - j,
            {
                if self.fields[j].0 == *name {
                    proof {
                        lemma_insert_entry(es, name@, s, j as int);
                    }
                    self.fields[j] = (name.clone(), s);
                    assert(self@.fields =~= es.update(j as int, (name@, s)));

                    return;
                }
                j = j + 1;
            }
            proof {
                lemma_insert_entry(es, name@, s, j as int);
            }
            self.fields.push((name.clone(), s));
            assert(self@.fields =~= es.push((name@, s)));
        }
    }

    /// The sample recorded under `name` among the fields without an attribute
    /// of their own.
    pub fn field(&self, name: &str) -> (r: Option<Sample>)
        ensures
            r matches Some(s) ==> exists|i: int|
                0 <= i < self@.fields.len() && #[trigger] self@.fields[i] == (name@, s),
            r is None ==> forall|i: int|
                0 <= i < self@.fields.len() ==> (#[trigger] self@.fields[i]).0 != name@,
    {
        let mut j: usize = 0;
        while j < self.fields.len()
            invariant
                j <= self.fields@.len(),
                forall|i: int| 0 <= i < j ==> (#[trigger] self@.fields[i]).0 != name@,
            decreases self.fields@.len() - j,
        {
            if crate::text::str_eq(self.fields[j].0.as_str(), name) {
                assert(self@.fields[j as int] == (name@, self.fields@[j as int].1));
                return Some(self.fields[j].1);
            }
            j = j + 1;
        }
        None
    }
}

/// Decodes the point whose record starts at `start` in `data`.
fn parse_point(fields: &Vec<PointField>, data: &Vec<u8>, start: usize, point_step: u32, big_endian: bool) -> (r: Point)
    requires
        forall|i: int| 0 <= i < fields@.len() ==> field_fits(#[trigger] fields@[i], point_step),
        start + point_step <= data@.len(),
    ensures
        r@ == point_of(fields@, data@.subrange(start as int, start + point_step), big_endian),
{
    let ghost rec = data@.subrange(start as int, start + point_step);
    let n = data.len();
    let mut p = Point::empty();
    let mut i: usize = 0;
    while i < fields.len()
        invariant
            i <= fields@.len(),
            forall|k: int| 0 <= k < fields@.len() ==> field_fits(#[trigger] fields@[k], point_step),
            start + point_step <= data@.len(),
            n == data@.len(),
            rec == data@.subrange(start as int, start + point_step),
            p@ == point_of(fields@.subrange(0, i as int), rec, big_endian),
        decreases fields@.len() - i,
    {
        let f = &fields[i];
        let ghost fs = fields@.subrange(0, i + 1);
        assert(fs.drop_last() =~= fields@.subrange(0, i as int));
        assert(fs.last() == fields@[i as int]);
        let dt = Datatype::from_tag(f.datatype);
        if dt != Datatype::Unknown {
            assert(field_fits(fields@[i as int], point_step));
            let at = start + f.offset as usize;
            let bits = read_unsigned(data.as_slice(), at, dt.width(), big_endian);
            assert(data@.subrange(at as int, at + dt.width_spec()) =~= rec.subrange(
                f.offset as int,
                f.offset + dt.width_spec(),
            ));
            p.apply(&f.name, dt.sample(bits));
        }
        i = i + 1;
    }
    assert(fields@.subrange(0, fields@.len() as int) =~= fields@);
    p
}

/// Decodes every point of the cloud, row by row and, within a row, column by
/// column.
pub fn decode_pcd(pcd: &PointCloud2) -> (r: Result<Vec<Point>, CloudError>)
    ensures
        r is Ok <==> decodable(*pcd),
        r matches Ok(ps) ==> decoded_as(*pcd, ps@.map_values(|p: Point| p@)),
        r == Err::<Vec<Point>, CloudError>(CloudError::FieldOutOfBounds) <==> (pcd.height != 0
            && pcd.width != 0 && !fields_fit(*pcd)),
        r == Err::<Vec<Point>, CloudError>(CloudError::PointOutOfBounds) <==> (pcd.height != 0
            && pcd.width != 0 && fields_fit(*pcd) && !points_in_data(*pcd)),
{
    let mut points: Vec<Point> = Vec::new();
    if pcd.height == 0 || pcd.width == 0 {
        return Ok(points);
    }
    let mut i: usize = 0;
    while i < pcd.fields.len()
        invariant
            pcd.height != 0,
            pcd.width != 0,
            i <= pcd.fields@.len(),
            forall|k: int| 0 <= k < i ==> field_fits(#[trigger] pcd.fields@[k], pcd.point_step),
        decreases pcd.fields@.len() - i,
    {
        let f = &pcd.fields[i];
        let dt = Datatype::from_tag(f.datatype);
        if dt != Datatype::Unknown && f.offset as u64 + dt.width() as u64 > pcd.point_step as u64 {
            assert(!field_fits(pcd.fields@[i as int], pcd.point_step));
            return Err(CloudError::FieldOutOfBounds);
        }
        i = i + 1;
    }
    // The last point starts furthest into the data.
    let len = pcd.data.len() as u64;
    let h = pcd.height as u64;
    let w = pcd.width as u64;
    let rs = pcd.row_step as u64;
    let ps = pcd.point_step as u64;
    proof {
        assert((h - 1) * rs <= 0xffff_ffff * 0xffff_ffff) by (nonlinear_arith)
            requires
                h - 1 <= 0xffff_ffff,
                rs <= 0xffff_ffff,
        ;
        assert((w - 1) * ps <= 0xffff_ffff * 0xffff_ffff) by (nonlinear_arith)
            requires
                w - 1 <= 0xffff_ffff,
                ps <= 0xffff_ffff,
        ;
    }
    let last_row = (h - 1) * rs;
    let last_col = (w - 1) * ps;
    if last_row > len || last_col > len - last_row || ps > len - last_row - last_col {
        assert(!(point_start(*pcd, h - 1, w - 1) + pcd.point_step <= pcd.data@.len()));
        return Err(CloudError::PointOutOfBounds);
    }
    assert forall|row: int, col: int|
        0 <= row < pcd.height && 0 <= col < pcd.width implies #[trigger] point_start(
            *pcd,
            row,
            col,
        ) + pcd.point_step <= pcd.data@.len() by {
        assert(row * rs <= (h - 1) * rs) by (nonlinear_arith)
            requires
                0 <= row <= h - 1,
                0 <= rs,
        ;
        assert(col * ps <= (w - 1) * ps) by (nonlinear_arith)
            requires
                0 <= col <= w - 1,
                0 <= ps,
        ;
    }
    assert(pcd.data.len() == pcd.data@.len());
    let hu = pcd.height as usize;
    let wu = pcd.width as usize;
    let rsu = pcd.row_step as usize;
    let psu = pcd.point_step as usize;
    let mut row: usize = 0;
    while row < hu
        invariant
            decodable(*pcd),
            fields_fit(*pcd),
            h == pcd.height,
            w == pcd.width,
            hu == h,
            wu == w,
            rsu == pcd.row_step,
            psu == pcd.point_step,
            len == pcd.data@.len(),
            pcd.data@.len() <= usize::MAX,
            h > 0,
            w > 0,
            row <= h,
            points@.len() == row * w,
            forall|r: int, c: int|
                0 <= r < row && 0 <= c < w ==> (#[trigger] points@[r * w + c])@ == cloud_point(
                    *pcd,
                    r,
                    c,
                ),
        decreases hu - row,
    {
        let mut col: usize = 0;
        while col < wu
            invariant
                decodable(*pcd),
                fields_fit(*pcd),
                h == pcd.height,
                w == pcd.width,
                hu == h,
                wu == w,
                rsu == pcd.row_step,
                psu == pcd.point_step,
                len == pcd.data@.len(),
                pcd.data@.len() <= usize::MAX,
            pcd.data@.len() <= usize::MAX,
                row < h,
                col <= w,
                points@.len() == row * w + col,
                forall|r: int, c: int|
                    0 <= r < row && 0 <= c < w ==> (#[trigger] points@[r * w + c])@
                        == cloud_point(*pcd, r, c),
                forall|c: int|
                    0 <= c < col ==> (#[trigger] points@[row * w + c])@ == cloud_point(
                        *pcd,
                        row as int,
                        c,
                    ),
            decreases wu - col,
        {
            assert(point_start(*pcd, row as int, col as int) + pcd.point_step <= pcd.data@.len());
            assert(0 <= row * rsu && 0 <= col * psu) by (nonlinear_arith)
                requires
                    0 <= row,
                    0 <= col,
                    0 <= rsu,
                    0 <= psu,
            ;
            let start: usize = row * rsu + col * psu;
            let p = parse_point(&pcd.fields, &pcd.data, start, pcd.point_step, pcd.is_bigendian);
            assert(p@ == cloud_point(*pcd, row as int, col as int));
            let ghost before = points@;
            points.push(p);
            proof {
                assert(points@[row * w + col] == p);
                assert forall|c: int| 0 <= c < col + 1 implies (#[trigger] points@[row * w + c])@
                    == cloud_point(*pcd, row as int, c) by {
                    if c < col {
                        assert(points@[row * w + c] == before[row * w + c]);
                    }
                }
                assert forall|r: int, c: int|
                    0 <= r < row && 0 <= c < w implies (#[trigger] points@[r * w + c])@
                        == cloud_point(*pcd, r, c) by {
                    assert(r * w + c < row * w) by (nonlinear_arith)
                        requires
                            0 <= r < row,
                            0 <= c < w,
                    ;
                    assert(points@[r * w + c] == before[r * w + c]);
                }
            }
            col = col + 1;
        }
        proof {
            assert forall|r: int, c: int|
                0 <= r < row + 1 && 0 <= c < w implies (#[trigger] points@[r * w + c])@
                    == cloud_point(*pcd, r, c) by {
                if r == row {
                    assert(points@[row * w + c]@ == cloud_point(*pcd, row as int, c));
                }
            }
            assert((row + 1) * w == row * w + w) by (nonlinear_arith);
        }
        row = row + 1;
    }
    proof {
        let views = points@.map_values(|p: Point| p@);
        assert forall|r: int, c: int|
            0 <= r < pcd.height && 0 <= c < pcd.width implies #[trigger] views[r * pcd.width + c]
                == cloud_point(*pcd, r, c) by {
            assert(r * w + c < h * w) by (nonlinear_arith)
                requires
                    0 <= r < h,
                    0 <= c < w,
            ;
            assert(points@[r * w + c]@ == cloud_point(*pcd, r, c));
        }
    }
    Ok(points)
}

/// A cloud decodes to one sequence of points only: decoding it twice gives
/// equal points, as many as it has rows times columns.
pub proof fn lemma_decode_deterministic(c: PointCloud2, a: Seq<PointView>, b: Seq<PointView>)
    requires
        decoded_as(c, a),
        decoded_as(c, b),
    ensures
        a == b,
        a.len() == c.height * c.width,
{
    assert forall|k: int| 0 <= k < a.len() implies a[k] == b[k] by {
        let w = c.width as int;
        let row = k / w;
        let col = k % w;
        assert(w > 0) by (nonlinear_arith)
            requires
                0 <= k < c.height * w,
        ;
        vstd::arithmetic::div_mod::lemma_fundamental_div_mod(k, w);
        assert(row * w + col == k) by (nonlinear_arith)
            requires
                k == w * row + col,
        ;
        assert(0 <= col < w);
        assert(0 <= row < c.height) by (nonlinear_arith)
            requires
                row * w + col == k,
                0 <= k < c.height * w,
                0 <= col < w,
                w > 0,
        ;
        assert(a[row * w + col] == cloud_point(c, row, col));
    }
    assert(a =~= b);
}


/// Every entry after setting `k` is an entry from before or `(k, v)`, and
/// `(k, v)` is among them.
pub proof fn lemma_insert_entry_contents(es: Seq<(Seq<char>, Sample)>, k: Seq<char>, v: Sample)
    ensures
        forall|i: int|
            0 <= i < insert_entry(es, k, v).len() ==> #[trigger] insert_entry(es, k, v)[i] == (
            k,
            v,
        ) || es.contains(insert_entry(es, k, v)[i]),
        insert_entry(es, k, v).contains((k, v)),
    decreases es.len(),
{
    let r = insert_entry(es, k, v);
    if es.len() == 0 {
        assert(r[0] == (k, v));
    } else if es[0].0 == k {
        assert(r[0] == (k, v));
        assert forall|i: int| 0 <= i < r.len() implies #[trigger] r[i] == (k, v) || es.contains(
            r[i],
        ) by {
            if i != 0 {
                assert(r[i] == es[i]);
            }
        }
    } else {
        let t = es.drop_first();
        lemma_insert_entry_contents(t, k, v);
        let rt = insert_entry(t, k, v);
        let j = choose|j: int| 0 <= j < rt.len() && rt[j] == (k, v);
        assert(r[j + 1] == (k, v));
        assert forall|i: int| 0 <= i < r.len() implies #[trigger] r[i] == (k, v) || es.contains(
            r[i],
        ) by {
            if i == 0 {
                assert(r[0] == es[0]);
            } else {
                assert(r[i] == rt[i - 1]);
                if rt[i - 1] != (k, v) {
                    let m = choose|m: int| 0 <= m < t.len() && t[m] == rt[i - 1];
                    assert(es[m + 1] == t[m]);
                }
            }
        }
    }
}

/// The names among a decoded point's entries are never those with an
/// attribute of their own.
pub proof fn lemma_entries_unreserved(fs: Seq<PointField>, rec: Seq<u8>, big_endian: bool)
    ensures
        forall|i: int|
            0 <= i < point_of(fs, rec, big_endian).fields.len() ==> !is_reserved_name(
                (#[trigger] point_of(fs, rec, big_endian).fields[i]).0,
            ),
    decreases fs.len(),
{
    if fs.len() > 0 {
        lemma_entries_unreserved(fs.drop_last(), rec, big_endian);
        let p = point_of(fs.drop_last(), rec, big_endian);
        let f = fs.last();
        if Datatype::from_tag_spec(f.datatype) != Datatype::Unknown && !is_reserved_name(f.name@) {
            let s = field_sample(f, rec, big_endian);
            lemma_insert_entry_contents(p.fields, f.name@, s);
            let q = insert_entry(p.fields, f.name@, s);
            assert forall|i: int| 0 <= i < q.len() implies !is_reserved_name(
                (#[trigger] q[i]).0,
            ) by {
                if q[i] != (f.name@, s) {
                    let m = choose|m: int| 0 <= m < p.fields.len() && p.fields[m] == q[i];
                    assert(!is_reserved_name(p.fields[m].0));
                }
            }
        }
    }
}

/// A field of a known type named `x`, `y`, `z` or `cluster_id`, applied after
/// the fields `fs`, sets that attribute to its sample and leaves the named
/// entries as they were; a field of any other name records its sample under
/// its name and leaves the attributes as they were. Decoded entries never
/// carry one of the four names.
pub proof fn lemma_named_field_dispatch(
    fs: Seq<PointField>,
    f: PointField,
    rec: Seq<u8>,
    big_endian: bool,
)
    requires
        Datatype::from_tag_spec(f.datatype) != Datatype::Unknown,
    ensures
        ({
            let before = point_of(fs, rec, big_endian);
            let after = point_of(fs.push(f), rec, big_endian);
            let s = field_sample(f, rec, big_endian);
            &&& f.name@ == name_x() ==> after == PointView { x: s, ..before }
            &&& f.name@ == name_y() ==> after == PointView { y: s, ..before }
            &&& f.name@ == name_z() ==> after == PointView { z: s, ..before }
            &&& f.name@ == name_cluster_id() ==> after == PointView { id: sample_id(s), ..before }
            &&& !is_reserved_name(f.name@) ==> {
                &&& after.x == before.x && after.y == before.y && after.z == before.z
                &&& after.id == before.id
                &&& after.fields.contains((f.name@, s))
            }
        }),
        forall|i: int|
            0 <= i < point_of(fs.push(f), rec, big_endian).fields.len() ==> !is_reserved_name(
                (#[trigger] point_of(fs.push(f), rec, big_endian).fields[i]).0,
            ),
{
    assert(fs.push(f).drop_last() =~= fs);
    assert(fs.push(f).last() == f);
    assert(name_x()[0] != name_y()[0] && name_x()[0] != name_z()[0] && name_y()[0] != name_z()[0]);
    assert(name_x().len() != name_cluster_id().len());
    assert(name_x() != name_y() && name_x() != name_z() && name_y() != name_z());
    let before = point_of(fs, rec, big_endian);
    assert(point_of(fs.push(f), rec, big_endian) == apply_field(
        before,
        f.name@,
        field_sample(f, rec, big_endian),
    ));
    lemma_insert_entry_contents(before.fields, f.name@, field_sample(f, rec, big_endian));
    lemma_entries_unreserved(fs.push(f), rec, big_endian);
}

/// A field whose type tag is unknown changes no point and needs no room in
/// the point record.
pub proof fn lemma_unknown_datatype_skipped(
    fs: Seq<PointField>,
    f: PointField,
    rec: Seq<u8>,
    big_endian: bool,
    point_step: u32,
)
    requires
        Datatype::from_tag_spec(f.datatype) == Datatype::Unknown,
    ensures
        point_of(fs.push(f), rec, big_endian) == point_of(fs, rec, big_endian),
        field_fits(f, point_step),
{
    assert(fs.push(f).drop_last() =~= fs);
}

/// Points whose fields hold equal samples are equal.
pub proof fn lemma_point_of_same_samples(
    fs: Seq<PointField>,
    r1: Seq<u8>,
    b1: bool,
    r2: Seq<u8>,
    b2: bool,
)
    requires
        forall|i: int|
            0 <= i < fs.len() && Datatype::from_tag_spec(fs[i].datatype) != Datatype::Unknown
                ==> field_sample(#[trigger] fs[i], r1, b1) == field_sample(fs[i], r2, b2),
    ensures
        point_of(fs, r1, b1) == point_of(fs, r2, b2),
    decreases fs.len(),
{
    if fs.len() > 0 {
        let t = fs.drop_last();
        assert forall|i: int|
            0 <= i < t.len() && Datatype::from_tag_spec(t[i].datatype) != Datatype::Unknown
                implies field_sample(#[trigger] t[i], r1, b1) == field_sample(t[i], r2, b2) by {
            assert(t[i] == fs[i]);
        }
        lemma_point_of_same_samples(t, r1, b1, r2, b2);
        assert(fs.last() == fs[fs.len() - 1]);
    }
}

/// The bytes of field `f` in the point at `row`, `col`.
pub open spec fn field_bytes(c: PointCloud2, row: int, col: int, f: PointField) -> Seq<u8> {
    point_record(c, row, col).subrange(
        f.offset as int,
        f.offset + Datatype::from_tag_spec(f.datatype).width_spec(),
    )
}

/// Two clouds of the same layout, the first little-endian and the second
/// big-endian, where every field of a known type of every point holds in the
/// second the bytes of the first reversed.
pub open spec fn mirrored(c1: PointCloud2, c2: PointCloud2) -> bool {
    &&& c1.height == c2.height
    &&& c1.width == c2.width
    &&& c1.fields@ == c2.fields@
    &&& c1.point_step == c2.point_step
    &&& c1.row_step == c2.row_step
    &&& c1.data@.len() == c2.data@.len()
    &&& !c1.is_bigendian
    &&& c2.is_bigendian
    &&& forall|row: int, col: int, i: int|
        0 <= row < c1.height && 0 <= col < c1.width && 0 <= i < c1.fields@.len()
            && Datatype::from_tag_spec(c1.fields@[i].datatype) != Datatype::Unknown
            ==> #[trigger] field_bytes(c2, row, col, c1.fields@[i]) == field_bytes(
            c1,
            row,
            col,
            c1.fields@[i],
        ).reverse()
}

/// A little-endian cloud and its big-endian mirror decode alike: both or
/// neither succeed, and then to equal points.
pub proof fn lemma_endianness(c1: PointCloud2, c2: PointCloud2)
    requires
        mirrored(c1, c2),
    ensures
        decodable(c1) == decodable(c2),
        forall|row: int, col: int|
            0 <= row < c1.height && 0 <= col < c1.width ==> #[trigger] cloud_point(c1, row, col)
                == cloud_point(c2, row, col),
{
    assert(fields_fit(c1) == fields_fit(c2));
    assert(points_in_data(c1) == points_in_data(c2)) by {
        assert forall|row: int, col: int|
            #![trigger point_start(c1, row, col)]
            #![trigger point_start(c2, row, col)]
            point_start(c1, row, col) == point_start(c2, row, col) by {}
    }
    assert forall|row: int, col: int|
        0 <= row < c1.height && 0 <= col < c1.width implies #[trigger] cloud_point(c1, row, col)
            == cloud_point(c2, row, col) by {
        let fs = c1.fields@;
        let r1 = point_record(c1, row, col);
        let r2 = point_record(c2, row, col);
        assert forall|i: int|
            0 <= i < fs.len() && Datatype::from_tag_spec(fs[i].datatype) != Datatype::Unknown
                implies field_sample(#[trigger] fs[i], r1, false) == field_sample(
                fs[i],
                r2,
                true,
            ) by {
            let b = field_bytes(c1, row, col, fs[i]);
            assert(field_bytes(c2, row, col, fs[i]) == b.reverse());
            lemma_be_is_reversed_le(b.reverse());
            assert(b.reverse().reverse() =~= b);
        }
        lemma_point_of_same_samples(fs, r1, false, r2, true);
    }
}

} // verus!
