use edgefirst_schemas::builtin_interfaces::{Duration, Time};
use edgefirst_schemas::foxglove_msgs::FoxgloveCompressedVideo;
use edgefirst_schemas::rosgraph_msgs::Clock;
use edgefirst_schemas::sensor_msgs::{
    CompressedImage, Image, NavSatStatus, PointCloud2, PointField, RegionOfInterest,
};
use edgefirst_schemas::service::ServiceHeader;
use edgefirst_schemas::serde_cdr::{deserialize, serialize, Error};
use edgefirst_schemas::std_msgs::Header;

#[test]
fn test_time_new() {
    let time = Time::new(42, 123456789);
    let bytes = serialize(&time).unwrap();
    let decoded: Time = deserialize(&bytes).unwrap();
    assert_eq!(decoded.sec, 42);
    assert_eq!(decoded.nanosec, 123456789);
}

#[test]
fn test_time_from_nanos() {
    let time = Time::from_nanos(1_500_000_000);
    let bytes = serialize(&time).unwrap();
    let decoded: Time = deserialize(&bytes).unwrap();
    assert_eq!(decoded.sec, 1);
    assert_eq!(decoded.nanosec, 500_000_000);
}

#[test]
fn test_time_to_nanos() {
    let time = Time::new(2, 300_000_000);
    let bytes = serialize(&time).unwrap();
    let decoded: Time = deserialize(&bytes).unwrap();
    assert_eq!(decoded.to_nanos(), 2_300_000_000);
}

#[test]
fn test_time_roundtrip_nanos() {
    let original_nanos = 123_456_789_012;
    let time = Time::from_nanos(original_nanos);
    let bytes = serialize(&time).unwrap();
    let decoded: Time = deserialize(&bytes).unwrap();
    assert_eq!(decoded.to_nanos(), original_nanos);
}

#[test]
fn test_time_serialize_deserialize() {
    let time = Time {
        sec: 1234567890,
        nanosec: 123456789,
    };
    let bytes = serialize(&time).unwrap();
    let decoded: Time = deserialize(&bytes).unwrap();
    assert_eq!(time, decoded);
}

#[test]
fn test_time_zero() {
    let time = Time { sec: 0, nanosec: 0 };
    let bytes = serialize(&time).unwrap();
    let decoded: Time = deserialize(&bytes).unwrap();
    assert_eq!(time, decoded);
}

#[test]
fn test_time_negative_sec() {
    let time = Time {
        sec: -100,
        nanosec: 500_000_000,
    };
    let bytes = serialize(&time).unwrap();
    let decoded: Time = deserialize(&bytes).unwrap();
    assert_eq!(time, decoded);
}

#[test]
fn test_duration_new() {
    let duration = Duration {
        sec: 5,
        nanosec: 500_000_000,
    };
    let bytes = serialize(&duration).unwrap();
    let decoded: Duration = deserialize(&bytes).unwrap();
    assert_eq!(decoded.sec, 5);
    assert_eq!(decoded.nanosec, 500_000_000);
}

#[test]
fn test_duration_serialize_deserialize() {
    let duration = Duration {
        sec: 42,
        nanosec: 999_999_999,
    };
    let bytes = serialize(&duration).unwrap();
    let decoded: Duration = deserialize(&bytes).unwrap();
    assert_eq!(duration, decoded);
}

#[test]
fn test_duration_zero() {
    let duration = Duration { sec: 0, nanosec: 0 };
    let bytes = serialize(&duration).unwrap();
    let decoded: Duration = deserialize(&bytes).unwrap();
    assert_eq!(duration, decoded);
}

#[test]
fn test_duration_negative() {
    let duration = Duration { sec: -5, nanosec: 0 };
    let bytes = serialize(&duration).unwrap();
    let decoded: Duration = deserialize(&bytes).unwrap();
    assert_eq!(duration, decoded);
}

#[test]
fn test_serialize_deserialize_header() {
    let header = Header {
        stamp: Time {
            sec: 42,
            nanosec: 123456789,
        },
        frame_id: "test_frame".to_string(),
    };
    let bytes = serialize(&header).unwrap();
    let deserialized: Header = deserialize(&bytes).unwrap();
    assert_eq!(header, deserialized);
}

#[test]
fn test_roundtrip_empty_string() {
    let header = Header {
        stamp: Time { sec: 0, nanosec: 0 },
        frame_id: String::new(),
    };
    let bytes = serialize(&header).unwrap();
    let deserialized: Header = deserialize(&bytes).unwrap();
    assert_eq!(header, deserialized);
}

#[test]
fn test_header_serialize_deserialize() {
    let header = Header {
        stamp: Time {
            sec: 1234567890,
            nanosec: 123456789,
        },
        frame_id: "test_frame".to_string(),
    };
    let bytes = serialize(&header).unwrap();
    let decoded: Header = deserialize(&bytes).unwrap();
    assert_eq!(header, decoded);
}

#[test]
fn test_header_empty_frame_id() {
    let header = Header {
        stamp: Time { sec: 0, nanosec: 0 },
        frame_id: String::new(),
    };
    let bytes = serialize(&header).unwrap();
    let decoded: Header = deserialize(&bytes).unwrap();
    assert_eq!(header, decoded);
}

#[test]
fn test_header_long_frame_id() {
    let long_id = "a".repeat(1000);
    let header = Header {
        stamp: Time { sec: 42, nanosec: 0 },
        frame_id: long_id.clone(),
    };
    let bytes = serialize(&header).unwrap();
    let decoded: Header = deserialize(&bytes).unwrap();
    assert_eq!(decoded.frame_id, long_id);
}

#[test]
fn test_header_special_chars() {
    let header = Header {
        stamp: Time { sec: 1, nanosec: 0 },
        frame_id: "camera/optical_frame".to_string(),
    };
    let bytes = serialize(&header).unwrap();
    let decoded: Header = deserialize(&bytes).unwrap();
    assert_eq!(header, decoded);
}

#[test]
fn point_cloud2_roundtrip() {
    let cloud = PointCloud2 {
        header: Header {
            stamp: Time::new(100, 0),
            frame_id: "lidar".to_string(),
        },
        height: 1,
        width: 1024,
        fields: vec![
            PointField { name: "x".to_string(), offset: 0, datatype: 7, count: 1 },
            PointField { name: "y".to_string(), offset: 4, datatype: 7, count: 1 },
            PointField { name: "z".to_string(), offset: 8, datatype: 7, count: 1 },
        ],
        is_bigendian: false,
        point_step: 12,
        row_step: 12288,
        data: vec![0u8; 12288],
        is_dense: true,
    };
    let bytes = serialize(&cloud).unwrap();
    let decoded: PointCloud2 = deserialize(&bytes).unwrap();
    assert_eq!(cloud, decoded);
}

#[test]
fn time_scenario_encodes_to_eight_bytes_after_the_header() {
    let time = Time { sec: 1234567890, nanosec: 123456789 };
    let bytes = serialize(&time).unwrap();
    assert_eq!(bytes.len(), 4 + 8);
    assert_eq!(&bytes[..4], &[0, 1, 0, 0]);
    assert_eq!(&bytes[4..8], &1234567890i32.to_le_bytes());
    assert_eq!(&bytes[8..12], &123456789u32.to_le_bytes());
    assert_eq!(deserialize::<Time>(&bytes).unwrap(), time);
}

#[test]
fn header_scenario_takes_thirty_four_bytes() {
    let header = Header {
        stamp: Time { sec: 7, nanosec: 8 },
        frame_id: "camera_optical_frame".to_string(),
    };
    assert_eq!(header.frame_id.len(), 20);
    let bytes = serialize(&header).unwrap();
    // 8 for the stamp, 4 for the count, the text and its terminator.
    assert_eq!(bytes.len() - 4, 8 + 4 + 20 + 1);
    assert_eq!(&bytes[12..16], &21u32.to_le_bytes());
    assert_eq!(bytes[bytes.len() - 1], 0);
    let header21 = Header {
        stamp: Time { sec: 7, nanosec: 8 },
        frame_id: "camera_optical_frame1".to_string(),
    };
    let bytes21 = serialize(&header21).unwrap();
    assert_eq!(bytes21.len() - 4, 34);
    assert_eq!(deserialize::<Header>(&bytes21).unwrap(), header21);
}

#[test]
fn deserialize_rejects_bad_input() {
    assert_eq!(deserialize::<Time>(&[0, 1, 0]), Err(Error::Deserialization));
    assert_eq!(deserialize::<Time>(&[0, 0, 0, 0, 1, 0, 0, 0, 2, 0, 0, 0]), Err(Error::Deserialization));
    assert_eq!(deserialize::<Time>(&[0, 1, 0, 0, 1, 0, 0, 0, 2, 0, 0]), Err(Error::Deserialization));
    // a count larger than what remains
    let bad_text = [0, 1, 0, 0, 0, 0, 0, 0, 0, 0, 0, 0, 9, 0, 0, 0, b'a', 0];
    assert_eq!(deserialize::<Header>(&bad_text), Err(Error::Deserialization));
    // text whose last byte is not a terminator
    let unterminated = [0, 1, 0, 0, 0, 0, 0, 0, 0, 0, 0, 0, 2, 0, 0, 0, b'a', b'b'];
    assert_eq!(deserialize::<Header>(&unterminated), Err(Error::Deserialization));
    // text that is not UTF-8
    let not_utf8 = [0, 1, 0, 0, 0, 0, 0, 0, 0, 0, 0, 0, 2, 0, 0, 0, 0xff, 0];
    assert_eq!(deserialize::<Header>(&not_utf8), Err(Error::Deserialization));
    // a boolean that is neither 0 nor 1
    let mut cloud = serialize(&PointCloud2 {
        header: Header { stamp: Time::new(0, 0), frame_id: String::new() },
        height: 0,
        width: 0,
        fields: vec![],
        is_bigendian: false,
        point_step: 0,
        row_step: 0,
        data: vec![],
        is_dense: false,
    })
    .unwrap();
    let last = cloud.len() - 1;
    cloud[last] = 2;
    assert_eq!(deserialize::<PointCloud2>(&cloud), Err(Error::Deserialization));
}

#[test]
fn serialized_bytes_match_the_cdr_crate() {
    let time = Time { sec: -100, nanosec: 500_000_000 };
    let ours = serialize(&time).unwrap();
    let theirs =
        cdr::serialize::<_, _, cdr::CdrLe>(&(-100i32, 500_000_000u32), cdr::size::Infinite).unwrap();
    assert_eq!(ours, theirs);

    let header = Header { stamp: Time { sec: 3, nanosec: 4 }, frame_id: "héllo".to_string() };
    let ours = serialize(&header).unwrap();
    let theirs = cdr::serialize::<_, _, cdr::CdrLe>(
        &((3i32, 4u32), "héllo".to_string()),
        cdr::size::Infinite,
    )
    .unwrap();
    assert_eq!(ours, theirs);
    let back: ((i32, u32), String) = cdr::deserialize(&ours).unwrap();
    assert_eq!(back, ((3, 4), "héllo".to_string()));
}

#[test]
fn time_from_and_to_nanos() {
    let t = Time::from_nanos(5_000_000_123);
    assert_eq!(t, Time { sec: 5, nanosec: 123 });
    assert_eq!(Time::new(0, 999).to_nanos(), 999);
}

#[test]
fn image_roundtrip() {
    let image = Image {
        header: Header {
            stamp: Time::new(100, 500_000_000),
            frame_id: "camera_optical".to_string(),
        },
        height: 480,
        width: 640,
        encoding: "rgb8".to_string(),
        is_bigendian: 0,
        step: 1920,
        data: vec![128u8; 1920 * 480],
    };
    let bytes = serialize(&image).unwrap();
    assert_eq!(image, deserialize::<Image>(&bytes).unwrap());
}

#[test]
fn foxglove_compressed_video_roundtrip() {
    let empty = FoxgloveCompressedVideo {
        header: Header {
            stamp: Time::new(0, 0),
            frame_id: String::new(),
        },
        data: vec![],
        format: String::new(),
    };
    let bytes = serialize(&empty).unwrap();
    assert_eq!(empty, deserialize::<FoxgloveCompressedVideo>(&bytes).unwrap());

    let video = FoxgloveCompressedVideo {
        header: Header {
            stamp: Time::new(100, 500_000_000),
            frame_id: "camera".to_string(),
        },
        data: vec![0x00, 0x00, 0x00, 0x01, 0x67, 0x42],
        format: "h264".to_string(),
    };
    let bytes = serialize(&video).unwrap();
    assert_eq!(video, deserialize::<FoxgloveCompressedVideo>(&bytes).unwrap());
}

#[test]
fn small_records_round_trip() {
    let clock = Clock { clock: Time::new(-3, 9) };
    assert_eq!(deserialize::<Clock>(&serialize(&clock).unwrap()).unwrap(), clock);

    let sh = ServiceHeader { guid: -42, seq: u64::MAX };
    let bytes = serialize(&sh).unwrap();
    assert_eq!(bytes.len(), 4 + 16);
    assert_eq!(deserialize::<ServiceHeader>(&bytes).unwrap(), sh);

    let status = NavSatStatus { status: -1, service: 8 };
    let bytes = serialize(&status).unwrap();
    assert_eq!(&bytes[4..], &[0xff, 0, 8, 0]);
    assert_eq!(deserialize::<NavSatStatus>(&bytes).unwrap(), status);

    let roi = RegionOfInterest { x_offset: 1, y_offset: 2, height: 3, width: 4, do_rectify: true };
    let bytes = serialize(&roi).unwrap();
    assert_eq!(bytes.len(), 4 + 17);
    assert_eq!(deserialize::<RegionOfInterest>(&bytes).unwrap(), roi);

    let img = CompressedImage {
        header: Header { stamp: Time::new(1, 2), frame_id: "cam".to_string() },
        format: "jpeg".to_string(),
        data: vec![0xff, 0xd8, 0xff],
    };
    assert_eq!(deserialize::<CompressedImage>(&serialize(&img).unwrap()).unwrap(), img);
}
