//! The commands a strategy document can issue, and their parsing from
//! document nodes.

pub mod create_partition;
pub mod create_partition_table;
pub mod find_disk;

use vstd::prelude::*;

use crate::document::{str_eq, Node};
use crate::errors::{Error, UnsupportedNode};

verus! {

/// A parsed strategy command.
#[derive(Debug)]
pub enum Command {
    /// Bind a pool disk satisfying constraints to a name.
    FindDisk(Box<find_disk::Command>),
    /// Create a fresh partition table on a bound disk.
    CreatePartitionTable(Box<create_partition_table::Command>),
    /// Create a partition on a bound disk.
    CreatePartition(Box<create_partition::Command>),
}

/// Is this node's name one of the three commands?
pub open spec fn is_command_name(name: Seq<char>) -> bool {
    name == "find-disk"@ || name == "create-partition-table"@ || name == "create-partition"@
}

/// Does a parsed command match what its node means? The variant follows
/// the node's name and the fields follow the sub-parser's decision.
pub open spec fn command_matches(c: Command, node: Node) -> bool {
    match c {
        Command::FindDisk(fd) => node.name@ == "find-disk"@ && find_disk::spec_parse(node)
            == Some((fd.name@, fd.constraints)),
        Command::CreatePartitionTable(ct) => node.name@ == "create-partition-table"@
            && create_partition_table::spec_parse(node) == Some((ct.disk@, ct.table_type)),
        Command::CreatePartition(cp) => node.name@ == "create-partition"@
            && create_partition::spec_parse(node) == Some(
            (cp.disk@, cp.id@, cp.role, cp.constraints),
        ),
    }
}

/// Does a command node fail to parse? Only a known command name with a
/// malformed body is fatal; an unknown name is a warning.
pub open spec fn command_fatal(node: Node) -> bool {
    if node.name@ == "find-disk"@ {
        find_disk::spec_parse(node) is None
    } else if node.name@ == "create-partition-table"@ {
        create_partition_table::spec_parse(node) is None
    } else if node.name@ == "create-partition"@ {
        create_partition::spec_parse(node) is None
    } else {
        false
    }
}

/// Parse a command node by its name: `find-disk`,
/// `create-partition-table` or `create-partition`, each exactly as its
/// sub-parser decides. Any other node is unsupported (a warning-severity
/// diagnostic).
pub fn parse_command(node: &Node) -> (r: Result<Command, Error>)
    ensures
        !is_command_name(node.name@) ==> (r matches Err(e) && e matches Error::UnsupportedNode(u)
            && u.at == node.span && u.name@ == node.name@),
        is_command_name(node.name@) ==> (r is Ok <==> !command_fatal(*node)),
        r matches Ok(c) ==> command_matches(c, *node),
        r matches Err(e) ==> (e.spec_severity() is Warning <==> !is_command_name(node.name@)),
{
    if str_eq(node.name.as_str(), "find-disk") {
        match find_disk::parse(node) {
            Ok(c) => Ok(Command::FindDisk(Box::new(c))),
            Err(e) => Err(e),
        }
    } else if str_eq(node.name.as_str(), "create-partition-table") {
        match create_partition_table::parse(node) {
            Ok(c) => Ok(Command::CreatePartitionTable(Box::new(c))),
            Err(e) => Err(e),
        }
    } else if str_eq(node.name.as_str(), "create-partition") {
        match create_partition::parse(node) {
            Ok(c) => Ok(Command::CreatePartition(Box::new(c))),
            Err(e) => Err(e),
        }
    } else {
        Err(
            Error::UnsupportedNode(
                UnsupportedNode { at: node.span, name: node.name.clone() },
            ),
        )
    }
}

} // verus!
