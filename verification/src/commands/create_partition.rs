//! The `create-partition` command: request a partition on a bound disk.

use vstd::prelude::*;

use crate::document::Node;
use crate::errors::{Error, MissingProperty};
use crate::parser::spec_property_str;
use crate::types::{spec_constraints, spec_role_of, Constraints, PartitionRole};

verus! {

/// Command to create a partition.
#[derive(Debug)]
pub struct Command {
    /// The bound disk name to create the partition on.
    pub disk: String,
    /// The reference identifier of the partition.
    pub id: String,
    /// The role, if any, of the partition.
    pub role: Option<PartitionRole>,
    /// How to size the partition.
    pub constraints: Constraints,
}

/// What a `create-partition` node means, when it is well formed: the
/// bound disk and partition identifier from the `disk` and `id`
/// properties, the role the optional `role` property names, and the
/// mandatory `constraints` child's constraints.
pub open spec fn spec_parse(node: Node) -> Option<
    (Seq<char>, Seq<char>, Option<PartitionRole>, Constraints),
> {
    match spec_property_str(node, "disk"@) {
        Some(d) => match spec_property_str(node, "id"@) {
            Some(id) => {
                let role = match node.spec_property("role"@) {
                    Some(e) => match e.value {
                        crate::document::Value::Str(rs) => match spec_role_of(rs@) {
                            Some(role) => Some(Some(role)),
                            None => None,
                        },
                        _ => None,
                    },
                    None => Some(None::<PartitionRole>),
                };
                match role {
                    Some(ro) => match node.spec_child("constraints"@) {
                        Some(cn) => match spec_constraints(cn) {
                            Some(cc) => Some((d, id, ro, cc)),
                            None => None,
                        },
                        None => None,
                    },
                    None => None,
                }
            },
            None => None,
        },
        None => None,
    }
}

/// Parse a `create-partition` node: `disk` and `id` properties, an
/// optional `role` property, and a mandatory `constraints` child, exactly
/// as [`spec_parse`] decides them.
pub fn parse(node: &Node) -> (r: Result<Command, Error>)
    ensures
        r is Ok <==> spec_parse(*node) is Some,
        r matches Ok(c) ==> spec_parse(*node) == Some((c.disk@, c.id@, c.role, c.constraints)),
        node.spec_property("disk"@) is None ==> (r matches Err(e) && e is MissingProperty),
        r matches Err(e2) ==> e2.spec_severity() is Error,
{
    let disk = match crate::parser::get_property_str(node, "disk") {
        Ok(d) => d,
        Err(e) => {
            return Err(e);
        },
    };
    let id = match crate::parser::get_property_str(node, "id") {
        Ok(d) => d,
        Err(e) => {
            return Err(e);
        },
    };
    let role = match node.property("role") {
        Some(entry) => match &entry.value {
            crate::document::Value::Str(s) => match PartitionRole::parse(s.as_str()) {
                Ok(role) => Some(role),
                Err(_) => {
                    return Err(
                        Error::UnsupportedValue(
                            crate::errors::UnsupportedValue {
                                at: entry.span,
                                advice: Some(
                                    "'boot', 'extended-boot', 'root', 'home' and 'swap' are supported".to_owned(),
                                ),
                            },
                        ),
                    );
                },
            },
            _ => {
                return Err(
                    Error::InvalidType(
                        crate::errors::InvalidType {
                            at: entry.span,
                            expected_type: crate::types::KdlType::String,
                        },
                    ),
                );
            },
        },
        None => None,
    };
    let constraints = match node.child("constraints") {
        Some(cnode) => match Constraints::from_kdl_node(cnode) {
            Ok(c) => c,
            Err(e) => {
                return Err(e);
            },
        },
        None => {
            return Err(Error::MissingNode("constraints".to_owned()));
        },
    };
    Ok(Command { disk, id, role, constraints })
}

} // verus!
