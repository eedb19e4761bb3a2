//! The typed vocabulary of the strategy document: value types, size
//! constraints, partition roles, partition-table types and storage units.

use vstd::prelude::*;

use crate::document::{spec_eq_ci, str_eq, str_eq_ci, Entry, Node, Value};
use crate::errors::{Error, MissingProperty};

verus! {

/// The type of a document value.
#[derive(Debug, Clone, Copy, PartialEq, Eq, Structural)]
pub enum KdlType {
    /// A boolean value.
    Boolean,
    /// A string value.
    String,
    /// A null value.
    Null,
    /// An integer value.
    Integer,
}

impl KdlType {
    /// Determine a value's type; a value kind outside the model is
    /// `UnknownType`.
    pub fn for_value(value: &Value) -> (r: Result<KdlType, Error>)
        ensures
            match value {
                Value::Bool(_) => r matches Ok(t) && t == KdlType::Boolean,
                Value::Str(_) => r matches Ok(t) && t == KdlType::String,
                Value::Null => r matches Ok(t) && t == KdlType::Null,
                Value::Int(_) => r matches Ok(t) && t == KdlType::Integer,
                Value::Other => r matches Err(e) && e is UnknownType,
            },
    {
        match value {
            Value::Bool(_) => Ok(KdlType::Boolean),
            Value::Str(_) => Ok(KdlType::String),
            Value::Null => Ok(KdlType::Null),
            Value::Int(_) => Ok(KdlType::Integer),
            Value::Other => Err(Error::UnknownType),
        }
    }
}

/// Constraints for a partition or disk size, mirroring the size
/// requirements of the allocation strategy.
#[derive(Debug, Clone, Copy)]
pub enum Constraints {
    /// Exact size in bytes.
    Exact(u64),
    /// Minimum size in bytes, using more if available.
    AtLeast(u64),
    /// Between `min` and `max` bytes.
    Range { min: u64, max: u64 },
    /// Use all remaining space.
    Remaining,
}

/// The role assigned to a partition.
#[derive(Debug, Clone, Copy, PartialEq, Eq, Structural)]
pub enum PartitionRole {
    /// Boot partition (usually the EFI system partition).
    Boot,
    /// Extended boot partition.
    ExtendedBoot,
    /// Root filesystem.
    Root,
    /// Home directory mount.
    Home,
    /// Swap partition.
    Swap,
}

/// The role a name selects, if it is one of the known roles.
pub open spec fn spec_role_of(v: Seq<char>) -> Option<PartitionRole> {
    if v == "boot"@ {
        Some(PartitionRole::Boot)
    } else if v == "extended-boot"@ {
        Some(PartitionRole::ExtendedBoot)
    } else if v == "root"@ {
        Some(PartitionRole::Root)
    } else if v == "home"@ {
        Some(PartitionRole::Home)
    } else if v == "swap"@ {
        Some(PartitionRole::Swap)
    } else {
        None
    }
}

impl PartitionRole {
    /// Parse a partition role name: the known names map to their roles,
    /// anything else is an unknown variant.
    pub fn parse(value: &str) -> (r: Result<PartitionRole, Error>)
        ensures
            r is Ok <==> spec_role_of(value@) is Some,
            r matches Ok(role) ==> spec_role_of(value@) == Some(role),
            r matches Err(e) ==> e is UnknownVariant,
            r matches Err(e2) ==> e2.spec_severity() is Error,
    {
        proof {
            reveal_strlit("boot");
            reveal_strlit("extended-boot");
            reveal_strlit("root");
            reveal_strlit("home");
            reveal_strlit("swap");
            assert("boot"@[0] == 'b' && "extended-boot"@[0] == 'e' && "root"@[0] == 'r'
                && "home"@[0] == 'h' && "swap"@[0] == 's');
        }
        if str_eq(value, "boot") {
            Ok(PartitionRole::Boot)
        } else if str_eq(value, "extended-boot") {
            Ok(PartitionRole::ExtendedBoot)
        } else if str_eq(value, "root") {
            Ok(PartitionRole::Root)
        } else if str_eq(value, "home") {
            Ok(PartitionRole::Home)
        } else if str_eq(value, "swap") {
            Ok(PartitionRole::Swap)
        } else {
            Err(Error::UnknownVariant)
        }
    }

    /// The role's conventional name.
    pub fn as_str(&self) -> (r: &'static str)
        ensures
            r@ == match self {
                PartitionRole::Boot => "boot"@,
                PartitionRole::ExtendedBoot => "extended-boot"@,
                PartitionRole::Root => "root"@,
                PartitionRole::Home => "home"@,
                PartitionRole::Swap => "swap"@,
            },
    {
        match self {
            PartitionRole::Boot => "boot",
            PartitionRole::ExtendedBoot => "extended-boot",
            PartitionRole::Root => "root",
            PartitionRole::Home => "home",
            PartitionRole::Swap => "swap",
        }
    }
}

/// The type of partition table to create.
#[derive(Debug, Clone, Copy, PartialEq, Eq, Structural)]
pub enum PartitionTableType {
    /// GUID partition table.
    Gpt,
    /// Master boot record.
    Msdos,
}

/// The partition-table type a name selects, if it is a known one.
pub open spec fn spec_table_type_of(v: Seq<char>) -> Option<PartitionTableType> {
    if v == "gpt"@ {
        Some(PartitionTableType::Gpt)
    } else if v == "msdos"@ {
        Some(PartitionTableType::Msdos)
    } else {
        None
    }
}

impl PartitionTableType {
    /// Parse a partition-table type name: the known names map to their
    /// types, anything else is an unknown variant.
    pub fn parse(value: &str) -> (r: Result<PartitionTableType, Error>)
        ensures
            r is Ok <==> spec_table_type_of(value@) is Some,
            r matches Ok(t) ==> spec_table_type_of(value@) == Some(t),
            r matches Err(e) ==> e is UnknownVariant,
            r matches Err(e2) ==> e2.spec_severity() is Error,
    {
        proof {
            reveal_strlit("gpt");
            reveal_strlit("msdos");
            assert("gpt"@.len() == 3 && "msdos"@.len() == 5);
        }
        if str_eq(value, "gpt") {
            Ok(PartitionTableType::Gpt)
        } else if str_eq(value, "msdos") {
            Ok(PartitionTableType::Msdos)
        } else {
            Err(Error::UnknownVariant)
        }
    }

    /// The table type's conventional name.
    pub fn as_str(&self) -> (r: &'static str)
        ensures
            r@ == match self {
                PartitionTableType::Gpt => "gpt"@,
                PartitionTableType::Msdos => "msdos"@,
            },
    {
        match self {
            PartitionTableType::Gpt => "gpt",
            PartitionTableType::Msdos => "msdos",
        }
    }
}

/// Storage unit of a size annotation: decimal (SI) or binary (IEC).
#[derive(Debug, Clone, Copy, PartialEq, Eq, Structural)]
pub enum StorageUnit {
    /// Bytes.
    Bytes,
    /// Kilobytes (1000 bytes).
    Kilobytes,
    /// Megabytes.
    Megabytes,
    /// Gigabytes.
    Gigabytes,
    /// Terabytes.
    Terabytes,
    /// Kibibytes (1024 bytes).
    Kibibytes,
    /// Mebibytes.
    Mebibytes,
    /// Gibibytes.
    Gibibytes,
    /// Tebibytes.
    Tebibytes,
}

impl StorageUnit {
    /// The unit's byte multiplier.
    pub open spec fn spec_factor(self) -> u64 {
        match self {
            StorageUnit::Bytes => 1,
            StorageUnit::Kilobytes => 1000,
            StorageUnit::Megabytes => 1000000,
            StorageUnit::Gigabytes => 1000000000,
            StorageUnit::Terabytes => 1000000000000,
            StorageUnit::Kibibytes => 1024,
            StorageUnit::Mebibytes => 1048576,
            StorageUnit::Gibibytes => 1073741824,
            StorageUnit::Tebibytes => 1099511627776,
        }
    }

    /// How many bytes one of this unit holds.
    pub fn factor(&self) -> (r: u64)
        ensures
            r == self.spec_factor(),
    {
        match self {
            StorageUnit::Bytes => 1,
            StorageUnit::Kilobytes => 1000,
            StorageUnit::Megabytes => 1000000,
            StorageUnit::Gigabytes => 1000000000,
            StorageUnit::Terabytes => 1000000000000,
            StorageUnit::Kibibytes => 1024,
            StorageUnit::Mebibytes => 1048576,
            StorageUnit::Gibibytes => 1073741824,
            StorageUnit::Tebibytes => 1099511627776,
        }
    }

    /// Parse a unit suffix (already lowercase).
    pub fn parse(value: &str) -> (r: Result<StorageUnit, Error>)
        ensures
            value@ != "b"@ && value@ != "kb"@ && value@ != "mb"@ && value@ != "gb"@ && value@
                != "tb"@ && value@ != "kib"@ && value@ != "mib"@ && value@ != "gib"@ && value@
                != "tib"@ ==> (r matches Err(e) && e is UnknownVariant),
            value@ == "b"@ ==> r == Ok::<StorageUnit, Error>(StorageUnit::Bytes),
            value@ == "kb"@ ==> r == Ok::<StorageUnit, Error>(StorageUnit::Kilobytes),
            value@ == "mb"@ ==> r == Ok::<StorageUnit, Error>(StorageUnit::Megabytes),
            value@ == "gb"@ ==> r == Ok::<StorageUnit, Error>(StorageUnit::Gigabytes),
            value@ == "tb"@ ==> r == Ok::<StorageUnit, Error>(StorageUnit::Terabytes),
            value@ == "kib"@ ==> r == Ok::<StorageUnit, Error>(StorageUnit::Kibibytes),
            value@ == "mib"@ ==> r == Ok::<StorageUnit, Error>(StorageUnit::Mebibytes),
            value@ == "gib"@ ==> r == Ok::<StorageUnit, Error>(StorageUnit::Gibibytes),
            value@ == "tib"@ ==> r == Ok::<StorageUnit, Error>(StorageUnit::Tebibytes),
    {
        proof {
            reveal_strlit("b");
            reveal_strlit("kb");
            reveal_strlit("mb");
            reveal_strlit("gb");
            reveal_strlit("tb");
            reveal_strlit("kib");
            reveal_strlit("mib");
            reveal_strlit("gib");
            reveal_strlit("tib");
            assert("b"@[0] == 'b' && "kb"@[0] == 'k' && "mb"@[0] == 'm' && "gb"@[0] == 'g'
                && "tb"@[0] == 't' && "kib"@[0] == 'k' && "mib"@[0] == 'm' && "gib"@[0] == 'g'
                && "tib"@[0] == 't');
            assert("kb"@[1] == 'b' && "kib"@[1] == 'i' && "mib"@[1] == 'i' && "gib"@[1] == 'i'
                && "tib"@[1] == 'i' && "mb"@[1] == 'b' && "gb"@[1] == 'b' && "tb"@[1] == 'b');
        }
        if str_eq(value, "b") {
            Ok(StorageUnit::Bytes)
        } else if str_eq(value, "kb") {
            Ok(StorageUnit::Kilobytes)
        } else if str_eq(value, "mb") {
            Ok(StorageUnit::Megabytes)
        } else if str_eq(value, "gb") {
            Ok(StorageUnit::Gigabytes)
        } else if str_eq(value, "tb") {
            Ok(StorageUnit::Terabytes)
        } else if str_eq(value, "kib") {
            Ok(StorageUnit::Kibibytes)
        } else if str_eq(value, "mib") {
            Ok(StorageUnit::Mebibytes)
        } else if str_eq(value, "gib") {
            Ok(StorageUnit::Gibibytes)
        } else if str_eq(value, "tib") {
            Ok(StorageUnit::Tebibytes)
        } else {
            Err(Error::UnknownVariant)
        }
    }

    /// The unit an entry's type annotation selects, compared ignoring
    /// ASCII case; a missing annotation means bytes.
    pub fn from_entry_annotation(entry: &Entry) -> (r: Result<StorageUnit, Error>)
        ensures
            entry.ty is None ==> r == Ok::<StorageUnit, Error>(StorageUnit::Bytes),
            entry.ty matches Some(t) ==> match r {
                Ok(u) => spec_unit_of(t@) == Some(u),
                Err(e) => spec_unit_of(t@) is None && e is UnsupportedValue,
            },
    {
        let ty = match &entry.ty {
            Some(t) => t,
            None => {
                return Ok(StorageUnit::Bytes);
            },
        };
        let s = ty.as_str();
        if str_eq_ci(s, "b") {
            Ok(StorageUnit::Bytes)
        } else if str_eq_ci(s, "kb") {
            Ok(StorageUnit::Kilobytes)
        } else if str_eq_ci(s, "mb") {
            Ok(StorageUnit::Megabytes)
        } else if str_eq_ci(s, "gb") {
            Ok(StorageUnit::Gigabytes)
        } else if str_eq_ci(s, "tb") {
            Ok(StorageUnit::Terabytes)
        } else if str_eq_ci(s, "kib") {
            Ok(StorageUnit::Kibibytes)
        } else if str_eq_ci(s, "mib") {
            Ok(StorageUnit::Mebibytes)
        } else if str_eq_ci(s, "gib") {
            Ok(StorageUnit::Gibibytes)
        } else if str_eq_ci(s, "tib") {
            Ok(StorageUnit::Tebibytes)
        } else {
            Err(
                Error::UnsupportedValue(
                    crate::errors::UnsupportedValue { at: entry.span, advice: None },
                ),
            )
        }
    }
}

/// The unit a type annotation names, ignoring ASCII case.
pub open spec fn spec_unit_of(t: Seq<char>) -> Option<StorageUnit> {
    if spec_eq_ci(t, "b"@) {
        Some(StorageUnit::Bytes)
    } else if spec_eq_ci(t, "kb"@) {
        Some(StorageUnit::Kilobytes)
    } else if spec_eq_ci(t, "mb"@) {
        Some(StorageUnit::Megabytes)
    } else if spec_eq_ci(t, "gb"@) {
        Some(StorageUnit::Gigabytes)
    } else if spec_eq_ci(t, "tb"@) {
        Some(StorageUnit::Terabytes)
    } else if spec_eq_ci(t, "kib"@) {
        Some(StorageUnit::Kibibytes)
    } else if spec_eq_ci(t, "mib"@) {
        Some(StorageUnit::Mebibytes)
    } else if spec_eq_ci(t, "gib"@) {
        Some(StorageUnit::Gibibytes)
    } else if spec_eq_ci(t, "tib"@) {
        Some(StorageUnit::Tebibytes)
    } else {
        None
    }
}

/// The byte size an entry denotes, when it does: an integer value,
/// scaled by the unit its type annotation selects, that fits in 64 bits
/// of bytes.
pub open spec fn spec_storage_size(e: Entry) -> Option<u64> {
    match e.value {
        Value::Int(v) => {
            let unit = if e.ty is None {
                Some(StorageUnit::Bytes)
            } else {
                spec_unit_of(e.ty->Some_0@)
            };
            match unit {
                Some(u) => if 0 <= v && v * u.spec_factor() <= u64::MAX {
                    Some((v * u.spec_factor()) as u64)
                } else {
                    None
                },
                None => None,
            }
        },
        _ => None,
    }
}

/// The byte size an entry denotes: its integer value times its unit.
/// Fails with `InvalidType` on a non-integer value, and with
/// `UnsupportedValue` on an unknown unit or a size that does not fit in
/// 64 bits of bytes.
pub fn entry_storage_size(entry: &Entry) -> (r: Result<u64, Error>)
    ensures
        r is Ok <==> spec_storage_size(*entry) is Some,
        r matches Ok(n) ==> spec_storage_size(*entry) == Some(n),
        !(entry.value is Int) ==> (r matches Err(e) && e is InvalidType),
        r matches Err(e2) ==> e2.spec_severity() is Error,
{
    let v = match &entry.value {
        Value::Int(v) => *v,
        _ => {
            return Err(
                Error::InvalidType(
                    crate::errors::InvalidType {
                        at: entry.span,
                        expected_type: KdlType::Integer,
                    },
                ),
            );
        },
    };
    let unit = match StorageUnit::from_entry_annotation(entry) {
        Ok(u) => u,
        Err(e) => {
            return Err(e);
        },
    };
    let factor = unit.factor();
    if v < 0 || v > u64::MAX as i128 {
        return Err(
            Error::UnsupportedValue(crate::errors::UnsupportedValue { at: entry.span, advice: None }),
        );
    }
    let v64 = v as u64;
    proof {
        assert(v64 * factor == v * unit.spec_factor()) by (nonlinear_arith)
            requires
                0 <= v <= u64::MAX,
                v64 == v,
                factor == unit.spec_factor(),
        ;
    }
    match v64.checked_mul(factor) {
        Some(n) => Ok(n),
        None => Err(
            Error::UnsupportedValue(crate::errors::UnsupportedValue { at: entry.span, advice: None }),
        ),
    }
}

/// The constraints a `constraints` node declares, when it declares any:
/// `min` and `max` children make a range, `min` alone a minimum,
/// `exactly` an exact size, and `remaining` takes all remaining space.
pub open spec fn spec_constraints(node: Node) -> Option<Constraints> {
    match (node.spec_child("min"@), node.spec_child("max"@)) {
        (Some(mn), Some(mx)) => match (spec_first_argument_size(mn), spec_first_argument_size(
            mx,
        )) {
            (Some(a), Some(b)) => Some(Constraints::Range { min: a, max: b }),
            _ => None,
        },
        (Some(mn), None) => match spec_first_argument_size(mn) {
            Some(a) => Some(Constraints::AtLeast(a)),
            None => None,
        },
        (None, _) => match node.spec_child("exactly"@) {
            Some(ex) => match spec_first_argument_size(ex) {
                Some(a) => Some(Constraints::Exact(a)),
                None => None,
            },
            None => if node.spec_child("remaining"@) is Some {
                Some(Constraints::Remaining)
            } else {
                None
            },
        },
    }
}

impl Constraints {
    /// Read the constraints a `constraints` node declares, exactly as
    /// [`spec_constraints`] decides them. A node declaring none of the
    /// shapes is a missing property.
    pub fn from_kdl_node(node: &Node) -> (r: Result<Constraints, Error>)
        ensures
            r is Ok <==> spec_constraints(*node) is Some,
            r matches Ok(c) ==> spec_constraints(*node) == Some(c),
            node.spec_child("min"@) is None && node.spec_child("exactly"@) is None
                && node.spec_child("remaining"@) is None ==> (r matches Err(e)
                && e is MissingProperty),
            r matches Err(e2) ==> e2.spec_severity() is Error,
    {
        let min_child = node.child("min");
        let max_child = node.child("max");
        match (min_child, max_child) {
            (Some(min_node), Some(max_node)) => {
                let min = match first_argument_size(min_node) {
                    Ok(v) => v,
                    Err(e) => {
                        return Err(e);
                    },
                };
                let max = match first_argument_size(max_node) {
                    Ok(v) => v,
                    Err(e) => {
                        return Err(e);
                    },
                };
                Ok(Constraints::Range { min, max })
            },
            (Some(min_node), None) => {
                let min = match first_argument_size(min_node) {
                    Ok(v) => v,
                    Err(e) => {
                        return Err(e);
                    },
                };
                Ok(Constraints::AtLeast(min))
            },
            (None, _) => {
                if let Some(exact_node) = node.child("exactly") {
                    let exact = match first_argument_size(exact_node) {
                        Ok(v) => v,
                        Err(e) => {
                            return Err(e);
                        },
                    };
                    return Ok(Constraints::Exact(exact));
                }
                if node.child("remaining").is_some() {
                    return Ok(Constraints::Remaining);
                }
                Err(
                    Error::MissingProperty(
                        MissingProperty {
                            at: node.span,
                            id: "min, max, exactly or remaining".to_owned(),
                            advice: Some("add one of these properties".to_owned()),
                        },
                    ),
                )
            },
        }
    }
}

/// The storage size a node's first positional entry denotes, when the
/// node has one and it does.
pub open spec fn spec_first_argument_size(node: Node) -> Option<u64> {
    let args = crate::document::spec_arguments(node.entries@);
    if args.len() == 0 {
        None
    } else {
        spec_storage_size(args[0])
    }
}

/// The storage size of a node's first positional entry; a node without
/// one is a missing entry.
fn first_argument_size(node: &Node) -> (r: Result<u64, Error>)
    ensures
        r is Ok <==> spec_first_argument_size(*node) is Some,
        r matches Ok(n) ==> spec_first_argument_size(*node) == Some(n),
        crate::document::spec_arguments(node.entries@).len() == 0 ==> (r matches Err(e)
            && e is MissingEntry),
        r matches Err(e2) ==> e2.spec_severity() is Error,
{
    match node.argument(0) {
        Some(entry) => entry_storage_size(entry),
        None => Err(
            Error::MissingEntry(
                crate::errors::MissingEntry {
                    at: node.span,
                    id: "0".to_owned(),
                    advice: None,
                },
            ),
        ),
    }
}

} // verus!
