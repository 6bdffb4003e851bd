use edgefirst_schemas::builtin_interfaces::Time;
use edgefirst_schemas::schema_registry::{is_supported, list_schemas, parse_schema, SchemaType};
use edgefirst_schemas::std_msgs::Header;
use edgefirst_schemas::{edgefirst_msgs, foxglove_msgs, geometry_msgs, sensor_msgs};

#[test]
fn test_parse_schema_valid() {
    let (pkg, typ) = parse_schema("sensor_msgs/msg/Image").unwrap();
    assert_eq!(pkg, "sensor_msgs");
    assert_eq!(typ, "Image");
}

#[test]
fn test_parse_schema_invalid() {
    assert!(parse_schema("invalid").is_none());
    assert!(parse_schema("sensor_msgs/srv/Image").is_none());
    assert!(parse_schema("sensor_msgs/Image").is_none());
}

#[test]
fn test_schema_name_method() {
    assert_eq!(sensor_msgs::Image::schema_name(), "sensor_msgs/msg/Image");
}

#[test]
fn test_is_supported() {
    assert!(is_supported("sensor_msgs/msg/Image"));
    assert!(is_supported("geometry_msgs/msg/Pose"));
    assert!(is_supported("edgefirst_msgs/msg/Box"));
    assert!(is_supported("foxglove_msgs/msg/CompressedVideo"));
    assert!(!is_supported("unknown_msgs/msg/Foo"));
    assert!(!is_supported("sensor_msgs/Image"));
}

#[test]
fn test_list_schemas() {
    let schemas = list_schemas();
    assert!(schemas.contains(&"sensor_msgs/msg/Image"));
    assert!(schemas.contains(&"geometry_msgs/msg/Pose"));
    assert!(schemas.contains(&"edgefirst_msgs/msg/Box"));
    assert!(!schemas.contains(&"unknown_msgs/msg/Foo"));
}

#[test]
fn test_header_new() {
    let header = Header {
        stamp: Time {
            sec: 100,
            nanosec: 500_000_000,
        },
        frame_id: "camera".to_string(),
    };
    assert_eq!(header.stamp.sec, 100);
    assert_eq!(header.frame_id, "camera");
}

#[test]
fn parse_schema_rejects_extra_parts_and_keeps_empty_ones() {
    assert!(parse_schema("a/msg/b/c").is_none());
    assert!(parse_schema("a/msgx/b").is_none());
    assert_eq!(parse_schema("/msg/"), Some(("", "")));
    assert_eq!(parse_schema("pkg/msg/Ünïcode"), Some(("pkg", "Ünïcode")));
}

#[test]
fn every_listed_schema_is_supported() {
    let schemas = list_schemas();
    assert_eq!(schemas.len(), 2 + 2 + 15 + 9 + 1 + 11);
    for s in &schemas {
        assert!(is_supported(s), "{}", s);
    }
    assert!(!is_supported("sensor_msgs/msg/Imagery"));
    assert!(!is_supported("std_msgs/msg/Time"));
}

#[test]
fn package_type_lists() {
    assert!(geometry_msgs::is_type_supported("TwistStamped"));
    assert!(!geometry_msgs::is_type_supported("Image"));
    assert!(sensor_msgs::is_type_supported("PointCloud2"));
    assert!(foxglove_msgs::is_type_supported("CompressedVideo"));
    assert!(edgefirst_msgs::is_type_supported("RadarCube"));
    assert_eq!(foxglove_msgs::list_types(), vec!["foxglove_msgs/msg/CompressedVideo"]);
    assert_eq!(sensor_msgs::list_types()[6], "sensor_msgs/msg/PointCloud2");
}

#[test]
fn schema_name_constants() {
    assert_eq!(sensor_msgs::Image::SCHEMA_NAME, "sensor_msgs/msg/Image");
    assert_eq!(Header::SCHEMA_NAME, Header::schema_name());
    assert_eq!(sensor_msgs::PointField::SCHEMA_NAME, "sensor_msgs/msg/PointField");
}

#[test]
fn schema_names_of_types() {
    assert_eq!(Header::schema_name(), "std_msgs/msg/Header");
    assert_eq!(Time::schema_name(), "builtin_interfaces/msg/Time");
    assert_eq!(sensor_msgs::PointCloud2::schema_name(), "sensor_msgs/msg/PointCloud2");
    assert_eq!(
        foxglove_msgs::FoxgloveCompressedVideo::schema_name(),
        "foxglove_msgs/msg/CompressedVideo"
    );
}
