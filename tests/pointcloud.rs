use edgefirst_schemas::builtin_interfaces::Time;
use edgefirst_schemas::pointcloud::{CloudError, Point, Sample};
use edgefirst_schemas::sensor_msgs::{point_field, PointCloud2, PointField};
use edgefirst_schemas::std_msgs::Header;
use edgefirst_schemas::decode_pcd;

/// The sample as a double, as the decoder's users see it.
fn val(s: Sample) -> f64 {
    match s {
        Sample::Int(i) => i as f64,
        Sample::Float32(b) => f32::from_bits(b) as f64,
        Sample::Float64(b) => f64::from_bits(b),
    }
}

fn field(p: &Point, name: &str) -> f64 {
    val(p.field(name).unwrap())
}

fn pf(name: &str, offset: u32, datatype: u8) -> PointField {
    PointField { name: name.to_string(), offset, datatype, count: 1 }
}

fn cloud(fields: Vec<PointField>, data: Vec<u8>, height: u32, width: u32, point_step: u32, row_step: u32, is_bigendian: bool) -> PointCloud2 {
    PointCloud2 {
        header: Header { stamp: Time::new(0, 0), frame_id: String::new() },
        height,
        width,
        fields,
        is_bigendian,
        point_step,
        row_step,
        data,
        is_dense: true,
    }
}

fn make_xyz_cloud(points_data: &[[f32; 3]], is_bigendian: bool) -> PointCloud2 {
    let fields = vec![
        pf("x", 0, point_field::FLOAT32),
        pf("y", 4, point_field::FLOAT32),
        pf("z", 8, point_field::FLOAT32),
    ];
    let point_step = 12u32;
    let width = points_data.len() as u32;
    let row_step = point_step * width;
    let mut data = Vec::with_capacity(points_data.len() * 12);
    for p in points_data {
        for val in p {
            if is_bigendian {
                data.extend_from_slice(&val.to_be_bytes());
            } else {
                data.extend_from_slice(&val.to_le_bytes());
            }
        }
    }
    let mut c = cloud(fields, data, 1, width, point_step, row_step, is_bigendian);
    c.header.frame_id = "test".to_string();
    c
}

#[test]
fn decode_pcd_basic_xyz_little_endian() {
    let input = [[1.0f32, 2.0, 3.0], [4.0, 5.0, 6.0], [-1.0, -2.0, -3.0]];
    let cloud = make_xyz_cloud(&input, false);
    let points = decode_pcd(&cloud).unwrap();
    assert_eq!(points.len(), 3);
    assert!((val(points[0].x) - 1.0).abs() < 1e-6);
    assert!((val(points[0].y) - 2.0).abs() < 1e-6);
    assert!((val(points[0].z) - 3.0).abs() < 1e-6);
    assert!((val(points[1].x) - 4.0).abs() < 1e-6);
    assert!((val(points[2].x) - (-1.0)).abs() < 1e-6);
}

#[test]
fn decode_pcd_basic_xyz_big_endian() {
    let input = [[10.0f32, 20.0, 30.0]];
    let cloud = make_xyz_cloud(&input, true);
    let points = decode_pcd(&cloud).unwrap();
    assert_eq!(points.len(), 1);
    assert!((val(points[0].x) - 10.0).abs() < 1e-6);
    assert!((val(points[0].y) - 20.0).abs() < 1e-6);
    assert!((val(points[0].z) - 30.0).abs() < 1e-6);
}

#[test]
fn decode_pcd_empty_cloud() {
    let cloud = cloud(vec![], vec![], 0, 0, 0, 0, false);
    let points = decode_pcd(&cloud).unwrap();
    assert!(points.is_empty());
}

#[test]
fn decode_pcd_with_cluster_id() {
    let fields = vec![
        pf("x", 0, point_field::FLOAT32),
        pf("y", 4, point_field::FLOAT32),
        pf("z", 8, point_field::FLOAT32),
        pf("cluster_id", 12, point_field::INT32),
    ];
    let mut data = Vec::new();
    data.extend_from_slice(&1.0f32.to_le_bytes());
    data.extend_from_slice(&2.0f32.to_le_bytes());
    data.extend_from_slice(&3.0f32.to_le_bytes());
    data.extend_from_slice(&42i32.to_le_bytes());
    data.extend_from_slice(&4.0f32.to_le_bytes());
    data.extend_from_slice(&5.0f32.to_le_bytes());
    data.extend_from_slice(&6.0f32.to_le_bytes());
    data.extend_from_slice(&(-1i32).to_le_bytes());
    let mut cloud = cloud(fields, data, 1, 2, 16, 32, false);
    cloud.header = Header { stamp: Time::new(100, 0), frame_id: "lidar".to_string() };
    let points = decode_pcd(&cloud).unwrap();
    assert_eq!(points.len(), 2);
    assert_eq!(points[0].id, 42);
    assert_eq!(points[1].id, -1);
}

#[test]
fn decode_pcd_with_custom_fields() {
    let fields = vec![
        pf("x", 0, point_field::FLOAT32),
        pf("y", 4, point_field::FLOAT32),
        pf("z", 8, point_field::FLOAT32),
        pf("vision_class", 12, point_field::FLOAT32),
        pf("intensity", 16, point_field::UINT8),
    ];
    let mut data = Vec::new();
    data.extend_from_slice(&1.0f32.to_le_bytes());
    data.extend_from_slice(&2.0f32.to_le_bytes());
    data.extend_from_slice(&3.0f32.to_le_bytes());
    data.extend_from_slice(&5.0f32.to_le_bytes());
    data.push(200u8);
    data.extend_from_slice(&[0u8; 3]);
    let cloud = cloud(fields, data, 1, 1, 20, 20, false);
    let points = decode_pcd(&cloud).unwrap();
    assert_eq!(points.len(), 1);
    assert!((field(&points[0], "vision_class") - 5.0).abs() < 1e-6);
    assert!((field(&points[0], "intensity") - 200.0).abs() < 1e-6);
}

#[test]
fn decode_pcd_all_datatypes_little_endian() {
    let fields = vec![
        pf("i8", 0, point_field::INT8),
        pf("u8", 1, point_field::UINT8),
        pf("i16", 2, point_field::INT16),
        pf("u16", 4, point_field::UINT16),
        pf("i32", 6, point_field::INT32),
        pf("u32", 10, point_field::UINT32),
        pf("f32", 14, point_field::FLOAT32),
        pf("f64", 18, point_field::FLOAT64),
    ];
    let mut data = Vec::new();
    data.extend_from_slice(&(-100i8).to_le_bytes());
    data.extend_from_slice(&200u8.to_le_bytes());
    data.extend_from_slice(&(-1000i16).to_le_bytes());
    data.extend_from_slice(&50000u16.to_le_bytes());
    data.extend_from_slice(&(-100000i32).to_le_bytes());
    data.extend_from_slice(&3000000000u32.to_le_bytes());
    data.extend_from_slice(&std::f32::consts::PI.to_le_bytes());
    data.extend_from_slice(&std::f64::consts::E.to_le_bytes());
    let cloud = cloud(fields, data, 1, 1, 26, 26, false);
    let points = decode_pcd(&cloud).unwrap();
    assert_eq!(points.len(), 1);
    let p = &points[0];
    assert!((field(p, "i8") - (-100.0)).abs() < 1e-6);
    assert!((field(p, "u8") - 200.0).abs() < 1e-6);
    assert!((field(p, "i16") - (-1000.0)).abs() < 1e-6);
    assert!((field(p, "u16") - 50000.0).abs() < 1e-6);
    assert!((field(p, "i32") - (-100000.0)).abs() < 1e-6);
    assert!((field(p, "u32") - 3000000000.0).abs() < 1e-6);
    assert!((field(p, "f32") - std::f32::consts::PI as f64).abs() < 1e-6);
    assert!((field(p, "f64") - std::f64::consts::E).abs() < 1e-9);
}

#[test]
fn decode_pcd_all_datatypes_big_endian() {
    let fields = vec![
        pf("i16", 0, point_field::INT16),
        pf("u32", 2, point_field::UINT32),
        pf("f64", 6, point_field::FLOAT64),
    ];
    let mut data = Vec::new();
    data.extend_from_slice(&(-500i16).to_be_bytes());
    data.extend_from_slice(&123456789u32.to_be_bytes());
    data.extend_from_slice(&1.23456789f64.to_be_bytes());
    let cloud = cloud(fields, data, 1, 1, 14, 14, true);
    let points = decode_pcd(&cloud).unwrap();
    let p = &points[0];
    assert!((field(p, "i16") - (-500.0)).abs() < 1e-6);
    assert!((field(p, "u32") - 123456789.0).abs() < 1e-6);
    assert!((field(p, "f64") - 1.23456789).abs() < 1e-9);
}

#[test]
fn decode_pcd_unknown_datatype_skipped() {
    let fields = vec![pf("x", 0, point_field::FLOAT32), pf("unknown", 4, 99)];
    let mut data = Vec::new();
    data.extend_from_slice(&42.0f32.to_le_bytes());
    data.extend_from_slice(&[0u8; 4]);
    let cloud = cloud(fields, data, 1, 1, 8, 8, false);
    let points = decode_pcd(&cloud).unwrap();
    assert_eq!(points.len(), 1);
    assert!((val(points[0].x) - 42.0).abs() < 1e-6);
    assert!(points[0].field("unknown").is_none());
}

#[test]
fn decode_pcd_multi_row() {
    let input = [
        [1.0f32, 1.0, 1.0],
        [2.0, 2.0, 2.0],
        [3.0, 3.0, 3.0],
        [4.0, 4.0, 4.0],
        [5.0, 5.0, 5.0],
        [6.0, 6.0, 6.0],
    ];
    let fields = vec![
        pf("x", 0, point_field::FLOAT32),
        pf("y", 4, point_field::FLOAT32),
        pf("z", 8, point_field::FLOAT32),
    ];
    let mut data = Vec::new();
    for p in &input {
        for val in p {
            data.extend_from_slice(&val.to_le_bytes());
        }
    }
    let mut cloud = cloud(fields, data, 2, 3, 12, 36, false);
    cloud.header.frame_id = "camera".to_string();
    let points = decode_pcd(&cloud).unwrap();
    assert_eq!(points.len(), 6);
    for (i, p) in points.iter().enumerate() {
        let expected = (i + 1) as f64;
        assert!((val(p.x) - expected).abs() < 1e-6, "point {} x mismatch", i);
    }
}

#[test]
fn single_point_scenario_has_no_named_entries() {
    let cloud = make_xyz_cloud(&[[1.0, 2.0, 3.0]], false);
    let points = decode_pcd(&cloud).unwrap();
    assert_eq!(points.len(), 1);
    assert_eq!(points[0].x, Sample::Float32(1.0f32.to_bits()));
    assert_eq!(points[0].y, Sample::Float32(2.0f32.to_bits()));
    assert_eq!(points[0].z, Sample::Float32(3.0f32.to_bits()));
    assert!(points[0].fields.is_empty());
    assert_eq!(val(points[0].x), 1.0);
}

#[test]
fn decoding_twice_gives_equal_points() {
    let cloud = make_xyz_cloud(&[[1.5, -2.0, 3.25], [0.0, 7.0, 8.0]], false);
    let a = decode_pcd(&cloud).unwrap();
    let b = decode_pcd(&cloud).unwrap();
    assert_eq!(a.len(), (cloud.height * cloud.width) as usize);
    assert_eq!(a, b);
}

#[test]
fn little_and_big_endian_clouds_decode_alike() {
    let input = [[1.5f32, -2.0, 3.25], [100.0, 0.5, -7.0]];
    let le = decode_pcd(&make_xyz_cloud(&input, false)).unwrap();
    let be = decode_pcd(&make_xyz_cloud(&input, true)).unwrap();
    assert_eq!(le, be);
    let mut le_data = Vec::new();
    le_data.extend_from_slice(&(-1234i16).to_le_bytes());
    le_data.extend_from_slice(&77u32.to_le_bytes());
    let mut be_data = Vec::new();
    be_data.extend_from_slice(&(-1234i16).to_be_bytes());
    be_data.extend_from_slice(&77u32.to_be_bytes());
    let fields = || vec![pf("cluster_id", 0, point_field::INT16), pf("ring", 2, point_field::UINT32)];
    let a = decode_pcd(&cloud(fields(), le_data, 1, 1, 6, 6, false)).unwrap();
    let b = decode_pcd(&cloud(fields(), be_data, 1, 1, 6, 6, true)).unwrap();
    assert_eq!(a, b);
    assert_eq!(a[0].id, -1234);
    assert_eq!(b[0].field("ring"), Some(Sample::Int(77)));
}

#[test]
fn reserved_names_never_reach_the_map_and_later_fields_win() {
    let fields = vec![
        pf("x", 0, point_field::UINT8),
        pf("a", 1, point_field::UINT8),
        pf("a", 2, point_field::UINT8),
        pf("b", 3, point_field::UINT8),
        pf("x", 2, point_field::UINT8),
    ];
    let points = decode_pcd(&cloud(fields, vec![10, 20, 30, 40], 1, 1, 4, 4, false)).unwrap();
    let p = &points[0];
    assert_eq!(p.x, Sample::Int(30));
    assert_eq!(p.fields.len(), 2);
    assert_eq!(p.fields[0], ("a".to_string(), Sample::Int(30)));
    assert_eq!(p.fields[1], ("b".to_string(), Sample::Int(40)));
    assert!(p.field("x").is_none());
    assert_eq!(p.y, Sample::Float64(0));
    assert_eq!(p.id, 0);
}

#[test]
fn out_of_range_fields_and_points_are_errors() {
    let too_wide = vec![pf("x", 2, point_field::FLOAT32)];
    assert_eq!(
        decode_pcd(&cloud(too_wide, vec![0; 4], 1, 1, 4, 4, false)),
        Err(CloudError::FieldOutOfBounds)
    );
    let unknown_far = vec![pf("u", 100, 0)];
    assert_eq!(decode_pcd(&cloud(unknown_far, vec![0; 4], 1, 1, 4, 4, false)).unwrap().len(), 1);
    let ok_fields = vec![pf("x", 0, point_field::UINT16)];
    assert_eq!(
        decode_pcd(&cloud(ok_fields.clone(), vec![0; 7], 2, 2, 2, 4, false)),
        Err(CloudError::PointOutOfBounds)
    );
    assert_eq!(decode_pcd(&cloud(ok_fields.clone(), vec![0; 8], 2, 2, 2, 4, false)).unwrap().len(), 4);
    assert_eq!(
        decode_pcd(&cloud(ok_fields, vec![0; 8], 2, u32::MAX, 2, u32::MAX, false)),
        Err(CloudError::PointOutOfBounds)
    );
    let empty_row = vec![pf("x", 9, point_field::FLOAT64)];
    assert_eq!(decode_pcd(&cloud(empty_row, vec![], 3, 0, 4, 0, false)).unwrap().len(), 0);
}

#[test]
fn signed_and_unsigned_samples_are_exact() {
    let fields = vec![
        pf("a", 0, point_field::INT8),
        pf("b", 1, point_field::UINT16),
        pf("c", 3, point_field::INT32),
        pf("d", 7, point_field::FLOAT64),
    ];
    let mut data = vec![0xffu8];
    data.extend_from_slice(&0xfffeu16.to_le_bytes());
    data.extend_from_slice(&i32::MIN.to_le_bytes());
    data.extend_from_slice(&(-0.5f64).to_le_bytes());
    let p = &decode_pcd(&cloud(fields, data, 1, 1, 15, 15, false)).unwrap()[0];
    assert_eq!(p.field("a"), Some(Sample::Int(-1)));
    assert_eq!(p.field("b"), Some(Sample::Int(0xfffe)));
    assert_eq!(p.field("c"), Some(Sample::Int(i32::MIN as i64)));
    assert_eq!(p.field("d"), Some(Sample::Float64((-0.5f64).to_bits())));
}

#[test]
fn float_cluster_ids_truncate_toward_zero() {
    let f32_ids = [
        (2.9f32, 2i64),
        (-2.9, -2),
        (0.5, 0),
        (-0.0, 0),
        (1.0e-40, 0),
        (16777216.0, 16777216),
        (1.0e30, i64::MAX),
        (f32::NEG_INFINITY, i64::MIN),
        (f32::NAN, 0),
        (-9.223372e18, -9223372036854775808),
    ];
    for (v, want) in f32_ids {
        let c = cloud(vec![pf("cluster_id", 0, point_field::FLOAT32)], v.to_le_bytes().to_vec(), 1, 1, 4, 4, false);
        assert_eq!(decode_pcd(&c).unwrap()[0].id, want, "{}", v);
        assert_eq!(decode_pcd(&c).unwrap()[0].id, v as i64, "{}", v);
    }
    let f64_ids = [
        (-7.99f64, -7i64),
        (123456789.75, 123456789),
        (4.5e15, 4_500_000_000_000_000),
        (9.3e18, i64::MAX),
        (-9.3e18, i64::MIN),
        (f64::INFINITY, i64::MAX),
        (f64::MIN_POSITIVE / 4.0, 0),
        (-f64::NAN, 0),
    ];
    for (v, want) in f64_ids {
        let c = cloud(vec![pf("cluster_id", 0, point_field::FLOAT64)], v.to_be_bytes().to_vec(), 1, 1, 8, 8, true);
        assert_eq!(decode_pcd(&c).unwrap()[0].id, want, "{}", v);
        assert_eq!(decode_pcd(&c).unwrap()[0].id, v as i64, "{}", v);
    }
}
