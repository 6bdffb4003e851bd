//! Schema names of the form `package/msg/TypeName`, and which of them this
//! library supports.

use vstd::prelude::*;
use vstd::string::StrSliceExecFns;
use crate::text::str_eq;
use crate::{builtin_interfaces, edgefirst_msgs, foxglove_msgs, geometry_msgs, sensor_msgs, std_msgs};

verus! {

/// A message type with a schema name.
pub trait SchemaType {
    /// The schema name of this type, such as `sensor_msgs/msg/Image`.
    const SCHEMA_NAME: &'static str;

    spec fn schema_name_spec() -> Seq<char>;

    /// The schema name of this type, such as `sensor_msgs/msg/Image`.
    fn schema_name() -> (r: &'static str)
        ensures
            r@ == Self::schema_name_spec(),
    ;
}

/// The separator between package and type name.
pub open spec fn msg_sep() -> Seq<char> {
    seq!['/', 'm', 's', 'g', '/']
}

pub open spec fn slash_free(s: Seq<char>) -> bool {
    forall|i: int| 0 <= i < s.len() ==> s[i] != '/'
}

/// Whether `s` is the schema name of type `name` in package `pkg`.
pub open spec fn is_schema_of(s: Seq<char>, pkg: Seq<char>, name: Seq<char>) -> bool {
    slash_free(pkg) && slash_free(name) && s == pkg + msg_sep() + name
}

proof fn lemma_schema_layout(s: Seq<char>, p: Seq<char>, q: Seq<char>)
    requires
        is_schema_of(s, p, q),
    ensures
        s.len() == p.len() + 5 + q.len(),
        s[p.len() as int] == '/',
        s[p.len() + 1int] == 'm',
        s[p.len() + 2int] == 's',
        s[p.len() + 3int] == 'g',
        s[p.len() + 4int] == '/',
        forall|k: int| 0 <= k < p.len() ==> s[k] != '/',
        forall|k: int| p.len() < k < p.len() + 4 ==> s[k] != '/',
        forall|k: int| p.len() + 4 < k < s.len() ==> s[k] != '/',
        p == s.subrange(0, p.len() as int),
        q == s.subrange(p.len() + 5int, s.len() as int),
{
    assert forall|k: int| 0 <= k < p.len() implies s[k] != '/' by {
        assert(s[k] == p[k]);
    }
    assert forall|k: int| p.len() + 4 < k < s.len() implies s[k] != '/' by {
        assert(s[k] == q[k - p.len() - 5]);
    }
    assert(p =~= s.subrange(0, p.len() as int));
    assert(q =~= s.subrange(p.len() + 5int, s.len() as int));
}

/// A schema name splits in at most one way.
pub proof fn lemma_schema_unique(s: Seq<char>, p1: Seq<char>, q1: Seq<char>, p2: Seq<char>, q2: Seq<char>)
    requires
        is_schema_of(s, p1, q1),
        is_schema_of(s, p2, q2),
    ensures
        p1 == p2,
        q1 == q2,
{
    lemma_schema_layout(s, p1, q1);
    lemma_schema_layout(s, p2, q2);
    if p1.len() < p2.len() {
        assert(s[p1.len() as int] != '/');
    }
    if p2.len() < p1.len() {
        assert(s[p2.len() as int] != '/');
    }
}

/// Splits a schema name into its package and type name.
pub fn parse_schema(schema: &str) -> (r: Option<(&str, &str)>)
    ensures
        r matches Some((p, q)) ==> is_schema_of(schema@, p@, q@),
        r is None ==> forall|p: Seq<char>, q: Seq<char>| !is_schema_of(schema@, p, q),
{
    let ghost s = schema@;
    let n = schema.unicode_len();
    let mut i: usize = 0;
    while i < n && schema.get_char(i) != '/'
        invariant
            i <= n == s.len(),
            s == schema@,
            forall|k: int| 0 <= k < i ==> s[k] != '/',
        decreases n - i,
    {
        i = i + 1;
    }
    if i == n {
        assert forall|p: Seq<char>, q: Seq<char>| !is_schema_of(s, p, q) by {
            if is_schema_of(s, p, q) {
                lemma_schema_layout(s, p, q);
            }
        }
        return None;
    }
    let mut j: usize = i + 1;
    while j < n && schema.get_char(j) != '/'
        invariant
            i < j <= n == s.len(),
            s == schema@,
            s[i as int] == '/',
            forall|k: int| 0 <= k < i ==> s[k] != '/',
            forall|k: int| i < k < j ==> s[k] != '/',
        decreases n - j,
    {
        j = j + 1;
    }
    if j == n {
        assert forall|p: Seq<char>, q: Seq<char>| !is_schema_of(s, p, q) by {
            if is_schema_of(s, p, q) {
                lemma_schema_layout(s, p, q);
                assert(p.len() == i);
            }
        }
        return None;
    }
    let mut k: usize = j + 1;
    while k < n && schema.get_char(k) != '/'
        invariant
            j < k <= n == s.len(),
            s == schema@,
            s[i as int] == '/',
            s[j as int] == '/',
            forall|m: int| 0 <= m < i ==> s[m] != '/',
            forall|m: int| i < m < j ==> s[m] != '/',
            forall|m: int| j < m < k ==> s[m] != '/',
        decreases n - k,
    {
        k = k + 1;
    }
    if k < n || j - i != 4 || schema.get_char(i + 1) != 'm' || schema.get_char(i + 2) != 's'
        || schema.get_char(i + 3) != 'g' {
        assert forall|p: Seq<char>, q: Seq<char>| !is_schema_of(s, p, q) by {
            if is_schema_of(s, p, q) {
                lemma_schema_layout(s, p, q);
                assert(p.len() == i);
                assert(j == i + 4);
            }
        }
        return None;
    }
    let p = schema.substring_char(0, i);
    let q = schema.substring_char(j + 1, n);
    assert(s =~= p@ + msg_sep() + q@);
    Some((p, q))
}

/// Whether package `pkg` has a message type named `name`.
pub open spec fn package_supports(pkg: Seq<char>, name: Seq<char>) -> bool {
    if pkg == "builtin_interfaces"@ {
        builtin_interfaces::type_supported(name)
    } else if pkg == "std_msgs"@ {
        std_msgs::type_supported(name)
    } else if pkg == "geometry_msgs"@ {
        geometry_msgs::type_supported(name)
    } else if pkg == "sensor_msgs"@ {
        sensor_msgs::type_supported(name)
    } else if pkg == "foxglove_msgs"@ {
        foxglove_msgs::type_supported(name)
    } else if pkg == "edgefirst_msgs"@ {
        edgefirst_msgs::type_supported(name)
    } else {
        false
    }
}

/// Whether `schema` names a message type that this library supports.
pub fn is_supported(schema: &str) -> (r: bool)
    ensures
        r == exists|p: Seq<char>, q: Seq<char>| is_schema_of(schema@, p, q) && package_supports(p, q),
{
    match parse_schema(schema) {
        None => false,
        Some((package, name)) => {
            let r = if str_eq(package, "builtin_interfaces") {
                builtin_interfaces::is_type_supported(name)
            } else if str_eq(package, "std_msgs") {
                std_msgs::is_type_supported(name)
            } else if str_eq(package, "geometry_msgs") {
                geometry_msgs::is_type_supported(name)
            } else if str_eq(package, "sensor_msgs") {
                sensor_msgs::is_type_supported(name)
            } else if str_eq(package, "foxglove_msgs") {
                foxglove_msgs::is_type_supported(name)
            } else if str_eq(package, "edgefirst_msgs") {
                edgefirst_msgs::is_type_supported(name)
            } else {
                false
            };
            proof {
                assert(r == package_supports(package@, name@));
                assert forall|p: Seq<char>, q: Seq<char>| is_schema_of(schema@, p, q) implies p
                    == package@ && q == name@ by {
                    lemma_schema_unique(schema@, p, q, package@, name@);
                }
            }
            r
        },
    }
}

/// The schema names of every supported message type.
pub open spec fn schema_list() -> Seq<Seq<char>> {
    builtin_interfaces::type_list() + std_msgs::type_list() + geometry_msgs::type_list()
        + sensor_msgs::type_list() + foxglove_msgs::type_list() + edgefirst_msgs::type_list()
}

fn append_names(out: &mut Vec<&'static str>, names: Vec<&'static str>)
    ensures
        final(out)@.map_values(|s: &str| s@) == old(out)@.map_values(|s: &str| s@) + names@.map_values(
            |s: &str| s@,
        ),
{
    let mut i: usize = 0;
    while i < names.len()
        invariant
            i <= names@.len(),
            out@.map_values(|s: &str| s@) == old(out)@.map_values(|s: &str| s@) + names@.subrange(
                0,
                i as int,
            ).map_values(|s: &str| s@),
        decreases names@.len() - i,
    {
        let ghost before = out@;
        out.push(names[i]);
        assert(out@.map_values(|s: &str| s@) =~= before.map_values(|s: &str| s@).push(names@[i as int]@));
        assert(names@.subrange(0, i + 1).map_values(|s: &str| s@) =~= names@.subrange(
            0,
            i as int,
        ).map_values(|s: &str| s@).push(names@[i as int]@));
        assert(out@.map_values(|s: &str| s@) =~= old(out)@.map_values(|s: &str| s@) + names@.subrange(
            0,
            i + 1,
        ).map_values(|s: &str| s@));
        i = i + 1;
    }
    assert(names@.subrange(0, names@.len() as int) =~= names@);
}

/// Lists the schema names of every supported message type.
pub fn list_schemas() -> (r: Vec<&'static str>)
    ensures
        r@.map_values(|s: &str| s@) == schema_list(),
{
    let mut r: Vec<&'static str> = Vec::new();
    assert(r@.map_values(|s: &str| s@) =~= Seq::<Seq<char>>::empty());
    append_names(&mut r, builtin_interfaces::list_types());
    append_names(&mut r, std_msgs::list_types());
    append_names(&mut r, geometry_msgs::list_types());
    append_names(&mut r, sensor_msgs::list_types());
    append_names(&mut r, foxglove_msgs::list_types());
    append_names(&mut r, edgefirst_msgs::list_types());
    assert(r@.map_values(|s: &str| s@) =~= schema_list());
    r
}

} // verus!
