//! The message types of the `geometry_msgs` package, by name.

use vstd::prelude::*;
use crate::text::str_eq;

verus! {

/// Whether `n` names a message type of this package.
pub open spec fn type_supported(n: Seq<char>) -> bool {
    n == "Accel"@
        || n == "AccelStamped"@
        || n == "Inertia"@
        || n == "InertiaStamped"@
        || n == "Point"@
        || n == "Point32"@
        || n == "PointStamped"@
        || n == "Pose"@
        || n == "Pose2D"@
        || n == "Quaternion"@
        || n == "Transform"@
        || n == "TransformStamped"@
        || n == "Twist"@
        || n == "TwistStamped"@
        || n == "Vector3"@
}

/// The schema names of this package's message types.
pub open spec fn type_list() -> Seq<Seq<char>> {
    seq![
        "geometry_msgs/msg/Accel"@,
        "geometry_msgs/msg/AccelStamped"@,
        "geometry_msgs/msg/Inertia"@,
        "geometry_msgs/msg/InertiaStamped"@,
        "geometry_msgs/msg/Point"@,
        "geometry_msgs/msg/Point32"@,
        "geometry_msgs/msg/PointStamped"@,
        "geometry_msgs/msg/Pose"@,
        "geometry_msgs/msg/Pose2D"@,
        "geometry_msgs/msg/Quaternion"@,
        "geometry_msgs/msg/Transform"@,
        "geometry_msgs/msg/TransformStamped"@,
        "geometry_msgs/msg/Twist"@,
        "geometry_msgs/msg/TwistStamped"@,
        "geometry_msgs/msg/Vector3"@,
    ]
}

/// Whether `name` names a message type of this package.
pub fn is_type_supported(name: &str) -> (r: bool)
    ensures
        r == type_supported(name@),
{
    str_eq(name, "Accel") || str_eq(name, "AccelStamped") || str_eq(name, "Inertia") || str_eq(name, "InertiaStamped") || str_eq(name, "Point") || str_eq(name, "Point32") || str_eq(name, "PointStamped") || str_eq(name, "Pose") || str_eq(name, "Pose2D") || str_eq(name, "Quaternion") || str_eq(name, "Transform") || str_eq(name, "TransformStamped") || str_eq(name, "Twist") || str_eq(name, "TwistStamped") || str_eq(name, "Vector3")
}

/// The schema names of this package's message types.
pub fn list_types() -> (r: Vec<&'static str>)
    ensures
        r@.map_values(|s: &str| s@) == type_list(),
{
    let r = vec![
        "geometry_msgs/msg/Accel",
        "geometry_msgs/msg/AccelStamped",
        "geometry_msgs/msg/Inertia",
        "geometry_msgs/msg/InertiaStamped",
        "geometry_msgs/msg/Point",
        "geometry_msgs/msg/Point32",
        "geometry_msgs/msg/PointStamped",
        "geometry_msgs/msg/Pose",
        "geometry_msgs/msg/Pose2D",
        "geometry_msgs/msg/Quaternion",
        "geometry_msgs/msg/Transform",
        "geometry_msgs/msg/TransformStamped",
        "geometry_msgs/msg/Twist",
        "geometry_msgs/msg/TwistStamped",
        "geometry_msgs/msg/Vector3",
    ];
    assert(r@.map_values(|s: &str| s@) =~= type_list());
    r
}

} // verus!
