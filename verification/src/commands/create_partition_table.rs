//! The `create-partition-table` command: start a fresh partition table
//! on a bound disk.

use vstd::prelude::*;

use crate::document::Node;
use crate::errors::{Error, MissingProperty};
use crate::parser::spec_property_str;
use crate::types::{spec_table_type_of, PartitionTableType};

verus! {

/// Command to create a partition table.
#[derive(Debug)]
pub struct Command {
    /// The bound disk name to create the table on.
    pub disk: String,
    /// The type of partition table to create.
    pub table_type: PartitionTableType,
}

/// What a `create-partition-table` node means, when it is well formed:
/// the bound disk name from the `disk` property, and the table type the
/// `type` property names.
pub open spec fn spec_parse(node: Node) -> Option<(Seq<char>, PartitionTableType)> {
    match spec_property_str(node, "disk"@) {
        Some(d) => match spec_property_str(node, "type"@) {
            Some(t) => match spec_table_type_of(t) {
                Some(tt) => Some((d, tt)),
                None => None,
            },
            None => None,
        },
        None => None,
    }
}

/// Parse a `create-partition-table` node: a `disk` property naming the
/// bound disk and a `type` property naming the table type, exactly as
/// [`spec_parse`] decides them.
pub fn parse(node: &Node) -> (r: Result<Command, Error>)
    ensures
        r is Ok <==> spec_parse(*node) is Some,
        r matches Ok(c) ==> spec_parse(*node) == Some((c.disk@, c.table_type)),
        node.spec_property("disk"@) is None ==> (r matches Err(e) && e is MissingProperty),
        r matches Err(e2) ==> e2.spec_severity() is Error,
{
    let disk = match crate::parser::get_property_str(node, "disk") {
        Ok(d) => d,
        Err(e) => {
            return Err(e);
        },
    };
    let kind_entry = match node.property("type") {
        Some(e) => e,
        None => {
            return Err(
                Error::MissingProperty(
                    MissingProperty {
                        at: node.span,
                        id: "type".to_owned(),
                        advice: Some("add `type=...` to bind the property".to_owned()),
                    },
                ),
            );
        },
    };
    let kind = match &kind_entry.value {
        crate::document::Value::Str(s) => s,
        _ => {
            return Err(
                Error::InvalidType(
                    crate::errors::InvalidType {
                        at: kind_entry.span,
                        expected_type: crate::types::KdlType::String,
                    },
                ),
            );
        },
    };
    let table_type = match PartitionTableType::parse(kind.as_str()) {
        Ok(t) => t,
        Err(e) => {
            return Err(
                Error::UnsupportedValue(
                    crate::errors::UnsupportedValue {
                        at: kind_entry.span,
                        advice: Some("'gpt' and 'msdos' are supported".to_owned()),
                    },
                ),
            );
        },
    };
    Ok(Command { disk, table_type })
}

} // verus!
