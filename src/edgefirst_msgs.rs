//! The message types of the `edgefirst_msgs` package, by name.

use vstd::prelude::*;
use crate::text::str_eq;

verus! {

/// Whether `n` names a message type of this package.
pub open spec fn type_supported(n: Seq<char>) -> bool {
    n == "Box"@
        || n == "Date"@
        || n == "Detect"@
        || n == "DmaBuffer"@
        || n == "LocalTime"@
        || n == "Mask"@
        || n == "Model"@
        || n == "ModelInfo"@
        || n == "RadarCube"@
        || n == "RadarInfo"@
        || n == "Track"@
}

/// The schema names of this package's message types.
pub open spec fn type_list() -> Seq<Seq<char>> {
    seq![
        "edgefirst_msgs/msg/Box"@,
        "edgefirst_msgs/msg/Date"@,
        "edgefirst_msgs/msg/Detect"@,
        "edgefirst_msgs/msg/DmaBuffer"@,
        "edgefirst_msgs/msg/LocalTime"@,
        "edgefirst_msgs/msg/Mask"@,
        "edgefirst_msgs/msg/Model"@,
        "edgefirst_msgs/msg/ModelInfo"@,
        "edgefirst_msgs/msg/RadarCube"@,
        "edgefirst_msgs/msg/RadarInfo"@,
        "edgefirst_msgs/msg/Track"@,
    ]
}

/// Whether `name` names a message type of this package.
pub fn is_type_supported(name: &str) -> (r: bool)
    ensures
        r == type_supported(name@),
{
    str_eq(name, "Box") || str_eq(name, "Date") || str_eq(name, "Detect") || str_eq(name, "DmaBuffer") || str_eq(name, "LocalTime") || str_eq(name, "Mask") || str_eq(name, "Model") || str_eq(name, "ModelInfo") || str_eq(name, "RadarCube") || str_eq(name, "RadarInfo") || str_eq(name, "Track")
}

/// The schema names of this package's message types.
pub fn list_types() -> (r: Vec<&'static str>)
    ensures
        r@.map_values(|s: &str| s@) == type_list(),
{
    let r = vec![
        "edgefirst_msgs/msg/Box",
        "edgefirst_msgs/msg/Date",
        "edgefirst_msgs/msg/Detect",
        "edgefirst_msgs/msg/DmaBuffer",
        "edgefirst_msgs/msg/LocalTime",
        "edgefirst_msgs/msg/Mask",
        "edgefirst_msgs/msg/Model",
        "edgefirst_msgs/msg/ModelInfo",
        "edgefirst_msgs/msg/RadarCube",
        "edgefirst_msgs/msg/RadarInfo",
        "edgefirst_msgs/msg/Track",
    ];
    assert(r@.map_values(|s: &str| s@) =~= type_list());
    r
}

} // verus!
