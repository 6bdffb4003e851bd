//! Time stamps and durations.

use vstd::prelude::*;
use crate::schema_registry::SchemaType;
use crate::serde_cdr::{
    stamp_datum, stamp_from_value, stamp_shape, stamp_shape_exec, stamp_value, Message,
};
use crate::text::str_eq;
use crate::wire::{Datum, Shape, ShapeView, Value};

verus! {

/// Nanoseconds in one second.
pub const NSEC_IN_SEC: u64 = 1_000_000_000;

/// A point in time: whole seconds and the nanoseconds past them.
#[derive(PartialEq, Eq, Structural, Clone, Copy, Debug)]
pub struct Time {
    pub sec: i32,
    pub nanosec: u32,
}

/// A span of time: whole seconds and the nanoseconds past them.
#[derive(PartialEq, Eq, Structural, Clone, Copy, Debug)]
pub struct Duration {
    pub sec: i32,
    pub nanosec: u32,
}

impl Time {
    pub fn new(sec: i32, nanosec: u32) -> (r: Self)
        ensures
            r.sec == sec,
            r.nanosec == nanosec,
    {
        Time { sec, nanosec }
    }

    /// Splits a count of nanoseconds into seconds and the remainder; the
    /// seconds are truncated to 32 bits as a cast would.
    pub fn from_nanos(nanos: u64) -> (r: Self)
        ensures
            r.sec == (nanos / NSEC_IN_SEC) as i32,
            r.nanosec == nanos % NSEC_IN_SEC,
    {
        Time { sec: (nanos / NSEC_IN_SEC) as i32, nanosec: (nanos % NSEC_IN_SEC) as u32 }
    }

    /// The time as nanoseconds; defined for times at or after zero.
    pub fn to_nanos(&self) -> (r: u64)
        requires
            self.sec >= 0,
        ensures
            r == self.sec * NSEC_IN_SEC + self.nanosec,
    {
        assert(self.sec * NSEC_IN_SEC <= 2_147_483_647 * NSEC_IN_SEC) by (nonlinear_arith)
            requires
                0 <= self.sec <= 2_147_483_647,
        ;
        self.sec as u64 * NSEC_IN_SEC + self.nanosec as u64
    }
}



impl Message for Time {
    open spec fn shape_view() -> ShapeView {
        stamp_shape()
    }

    open spec fn datum(&self) -> Datum {
        stamp_datum(self.sec, self.nanosec)
    }

    fn shape() -> (s: Shape) {
        stamp_shape_exec()
    }

    fn to_value(&self) -> (v: Value) {
        stamp_value(self.sec, self.nanosec)
    }

    fn from_value(v: &Value) -> (r: Self) {
        let (sec, nanosec) = stamp_from_value(v);
        Time { sec, nanosec }
    }
}

impl Message for Duration {
    open spec fn shape_view() -> ShapeView {
        stamp_shape()
    }

    open spec fn datum(&self) -> Datum {
        stamp_datum(self.sec, self.nanosec)
    }

    fn shape() -> (s: Shape) {
        stamp_shape_exec()
    }

    fn to_value(&self) -> (v: Value) {
        stamp_value(self.sec, self.nanosec)
    }

    fn from_value(v: &Value) -> (r: Self) {
        let (sec, nanosec) = stamp_from_value(v);
        Duration { sec, nanosec }
    }
}

/// Whether `n` names a message type of this package.
pub open spec fn type_supported(n: Seq<char>) -> bool {
    n == "Duration"@
        || n == "Time"@
}

/// The schema names of this package's message types.
pub open spec fn type_list() -> Seq<Seq<char>> {
    seq![
        "builtin_interfaces/msg/Duration"@,
        "builtin_interfaces/msg/Time"@,
    ]
}

/// Whether `name` names a message type of this package.
pub fn is_type_supported(name: &str) -> (r: bool)
    ensures
        r == type_supported(name@),
{
    str_eq(name, "Duration") || str_eq(name, "Time")
}

/// The schema names of this package's message types.
pub fn list_types() -> (r: Vec<&'static str>)
    ensures
        r@.map_values(|s: &str| s@) == type_list(),
{
    let r = vec![
        "builtin_interfaces/msg/Duration",
        "builtin_interfaces/msg/Time",
    ];
    assert(r@.map_values(|s: &str| s@) =~= type_list());
    r
}

impl SchemaType for Time {
    const SCHEMA_NAME: &'static str = "builtin_interfaces/msg/Time";

    open spec fn schema_name_spec() -> Seq<char> {
        "builtin_interfaces/msg/Time"@
    }

    fn schema_name() -> (r: &'static str) {
        "builtin_interfaces/msg/Time"
    }
}

impl SchemaType for Duration {
    const SCHEMA_NAME: &'static str = "builtin_interfaces/msg/Duration";

    open spec fn schema_name_spec() -> Seq<char> {
        "builtin_interfaces/msg/Duration"@
    }

    fn schema_name() -> (r: &'static str) {
        "builtin_interfaces/msg/Duration"
    }
}

} // verus!
